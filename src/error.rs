use vstd::prelude::*;

verus! {

/// The kinds of failure that reading a class file or running its entry method can end in.
#[derive(Debug, Clone, Copy, PartialEq, Eq, Structural)]
pub enum VmError {
    BadMagic,
    MalformedConstantPool,
    IndexOutOfRange,
    UnsupportedFeature,
    UnknownAttribute,
    MalformedAttribute,
    NoEntryPoint,
    MissingCode,
    UnknownOpcode,
    UnimplementedOpcode,
    UnsupportedOperation,
    StackUnderflow,
    TruncatedInput,
    MissingReturn,
}

impl VmError {
    /// A short human-readable description of the failure.
    pub fn message(&self) -> (r: &'static str)
        ensures
            r@ == match *self {
                VmError::BadMagic => "bad magic number"@,
                VmError::MalformedConstantPool => "malformed constant pool"@,
                VmError::IndexOutOfRange => "constant pool index out of range"@,
                VmError::UnsupportedFeature => "unsupported class-file feature"@,
                VmError::UnknownAttribute => "unknown attribute"@,
                VmError::MalformedAttribute => "attribute length does not match its body"@,
                VmError::NoEntryPoint => "no method named main"@,
                VmError::MissingCode => "entry method has no Code attribute"@,
                VmError::UnknownOpcode => "unknown opcode"@,
                VmError::UnimplementedOpcode => "unimplemented opcode"@,
                VmError::UnsupportedOperation => "unsupported operation"@,
                VmError::StackUnderflow => "operand stack underflow"@,
                VmError::TruncatedInput => "unexpected end of input"@,
                VmError::MissingReturn => "code ended without a return"@,
            },
    {
        match self {
            VmError::BadMagic => "bad magic number",
            VmError::MalformedConstantPool => "malformed constant pool",
            VmError::IndexOutOfRange => "constant pool index out of range",
            VmError::UnsupportedFeature => "unsupported class-file feature",
            VmError::UnknownAttribute => "unknown attribute",
            VmError::MalformedAttribute => "attribute length does not match its body",
            VmError::NoEntryPoint => "no method named main",
            VmError::MissingCode => "entry method has no Code attribute",
            VmError::UnknownOpcode => "unknown opcode",
            VmError::UnimplementedOpcode => "unimplemented opcode",
            VmError::UnsupportedOperation => "unsupported operation",
            VmError::StackUnderflow => "operand stack underflow",
            VmError::TruncatedInput => "unexpected end of input",
            VmError::MissingReturn => "code ended without a return",
        }
    }
}

} // verus!
