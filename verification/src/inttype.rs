use vstd::prelude::*;

verus! {

/// The bit width of a native field element.
pub const FIELD_BIT_SIZE: usize = 64;

/// The value types a circuit operand can carry: an integer of a known bit
/// size, a native field element, or something else.
#[derive(Debug, PartialEq, Eq, Structural)]
pub enum P2Type {
    Integer(usize),
    Field,
    Other,
}

/// The bit size of an operand type: the declared size of an integer, the
/// field width for a field element, and nothing for any other type.
pub fn get_integer_bitsize(typ: &P2Type) -> (r: Option<usize>)
    ensures
        r == match *typ {
            P2Type::Integer(bit_size) => Some(bit_size),
            P2Type::Field => Some(FIELD_BIT_SIZE),
            P2Type::Other => None::<usize>,
        },
{
    match typ {
        P2Type::Integer(bit_size) => Some(*bit_size),
        P2Type::Field => Some(FIELD_BIT_SIZE),
        P2Type::Other => None,
    }
}

} // verus!
