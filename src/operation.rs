use vstd::prelude::*;
use crate::class::{
    spec_class_name, spec_code_of, spec_main_index, spec_member_name, spec_member_ref,
    spec_resolve, spec_utf8, resolve, resolve_class_name, resolve_member_name, resolve_member_ref,
    resolve_utf8, BytecodeClass, ConstantPoolEnum,
};
use crate::error::VmError;

verus! {

/// The number of operand bytes that follow `opcode`, for the opcodes this interpreter knows.
pub open spec fn opcode_arity(opcode: u8) -> Option<nat> {
    if opcode == 18 || opcode == 54 || opcode == 21 {
        Some(1)
    } else if opcode == 178 || opcode == 182 {
        Some(2)
    } else if opcode == 177 || opcode == 6 || opcode == 172 {
        Some(0)
    } else {
        None
    }
}

/// The big-endian 16-bit value of two bytes.
pub open spec fn spec_as_u2(high: u8, low: u8) -> u16 {
    (high as int * 256 + low as int) as u16
}

/// The texts that a sequence of strings holds.
pub open spec fn texts(v: Seq<String>) -> Seq<Seq<char>> {
    v.map_values(|s: String| s@)
}

/// The text that `ldc` pushes for the String entry at `index`.
pub open spec fn spec_ldc_text(pool: Seq<ConstantPoolEnum>, index: int) -> Result<Seq<char>, VmError> {
    match spec_resolve(pool, index) {
        Ok(ConstantPoolEnum::ConstantStringItem(x)) => spec_utf8(pool, x.string_index as int),
        Ok(_) => Err(VmError::MalformedConstantPool),
        Err(e) => Err(e),
    }
}

/// The `<class>.<member>` text that `getstatic` pushes for the member reference at `index`.
pub open spec fn spec_static_name(pool: Seq<ConstantPoolEnum>, index: int) -> Result<Seq<char>, VmError> {
    match spec_member_ref(pool, index) {
        Ok((class_index, nat_index)) => match spec_class_name(pool, class_index as int) {
            Ok(class_name) => match spec_member_name(pool, nat_index as int) {
                Ok(member) => Ok(class_name + "."@ + member),
                Err(e) => Err(e),
            },
            Err(e) => Err(e),
        },
        Err(e) => Err(e),
    }
}

/// The name of the member that `invokevirtual` calls through the reference at `index`.
pub open spec fn spec_invoked_name(pool: Seq<ConstantPoolEnum>, index: int) -> Result<Seq<char>, VmError> {
    match spec_member_ref(pool, index) {
        Ok((_, nat_index)) => spec_member_name(pool, nat_index as int),
        Err(e) => Err(e),
    }
}

/// The effect of one decoded instruction on the operand stack and the printed lines:
/// `Ok(None)` halts, `Ok(Some((stack, out)))` goes on with the new stack and lines.
pub open spec fn spec_step(
    opcode: u8,
    operands: Seq<u8>,
    pool: Seq<ConstantPoolEnum>,
    stack: Seq<Seq<char>>,
    out: Seq<Seq<char>>,
) -> Result<Option<(Seq<Seq<char>>, Seq<Seq<char>>)>, VmError> {
    if opcode == 18 {
        match spec_ldc_text(pool, operands[0] as int) {
            Ok(s) => Ok(Some((stack.push(s), out))),
            Err(e) => Err(e),
        }
    } else if opcode == 178 {
        match spec_static_name(pool, spec_as_u2(operands[0], operands[1]) as int) {
            Ok(s) => Ok(Some((stack.push(s), out))),
            Err(e) => Err(e),
        }
    } else if opcode == 182 {
        match spec_invoked_name(pool, spec_as_u2(operands[0], operands[1]) as int) {
            Ok(name) => if name != "println"@ {
                Err(VmError::UnsupportedOperation)
            } else if stack.len() < 2 {
                Err(VmError::StackUnderflow)
            } else {
                Ok(Some((stack.subrange(0, stack.len() - 2), out.push(stack.last()))))
            },
            Err(e) => Err(e),
        }
    } else if opcode == 177 {
        Ok(None)
    } else if opcode == 6 || opcode == 54 || opcode == 21 || opcode == 172 {
        Err(VmError::UnimplementedOpcode)
    } else {
        Err(VmError::UnknownOpcode)
    }
}

/// Runs `code` from `pc` with the given stack and printed lines: the lines printed
/// when the run stops, and whether it halted normally. Only `return` halts normally;
/// reaching the end of the code without it is `MissingReturn`.
pub open spec fn spec_run(
    code: Seq<u8>,
    pool: Seq<ConstantPoolEnum>,
    pc: nat,
    stack: Seq<Seq<char>>,
    out: Seq<Seq<char>>,
) -> (Seq<Seq<char>>, Result<(), VmError>)
    decreases code.len() - pc,
{
    if pc >= code.len() {
        (out, Err(VmError::MissingReturn))
    } else {
        match opcode_arity(code[pc as int]) {
            None => (out, Err(VmError::UnknownOpcode)),
            Some(n) => if pc + 1 + n > code.len() {
                (out, Err(VmError::TruncatedInput))
            } else {
                match spec_step(code[pc as int], code.subrange(pc + 1 as int, pc + 1 + n as int), pool, stack, out) {
                    Err(e) => (out, Err(e)),
                    Ok(None) => (out, Ok(())),
                    Ok(Some((next_stack, next_out))) => spec_run(code, pool, pc + 1 + n, next_stack, next_out),
                }
            },
        }
    }
}

/// Registers of one run: program counter and operand stack.
struct Envt {
    pc: usize,
    stack: Vec<String>,
}

/// One decoded instruction.
struct Op {
    pub opcode: u8,
    pub operands: Vec<u8>,
}

/// What a run printed, and how it ended.
pub struct Execution {
    pub output: Vec<String>,
    pub status: Result<(), VmError>,
}

/// Runs the first Code attribute of the class's first method named `main`.
pub fn execute(class: BytecodeClass) -> (r: Execution)
    ensures
        match spec_main_index(class.methods@) {
            None => r.status == Err::<(), VmError>(VmError::NoEntryPoint) && r.output@.len() == 0,
            Some(i) => match spec_code_of(class.methods@[i].attributes@) {
                None => r.status == Err::<(), VmError>(VmError::MissingCode) && r.output@.len() == 0,
                Some(code) => (texts(r.output@), r.status) == spec_run(code, class.constant_pool@, 0, seq![], seq![]),
            },
        },
{
    let method = match class.get_main_method() {
        Ok(m) => m,
        Err(e) => return Execution { output: Vec::new(), status: Err(e) },
    };
    let code = match method.get_code() {
        Ok(c) => c,
        Err(e) => return Execution { output: Vec::new(), status: Err(e) },
    };
    execute_code(code, &class.constant_pool)
}

/// Runs `code` from its first byte with an empty operand stack.
pub fn execute_code(code: &Vec<u8>, constant_pool: &Vec<ConstantPoolEnum>) -> (r: Execution)
    ensures
        (texts(r.output@), r.status) == spec_run(code@, constant_pool@, 0, seq![], seq![]),
{
    let mut envt = Envt { pc: 0, stack: Vec::new() };
    let mut output: Vec<String> = Vec::new();
    assert(texts(envt.stack@) =~= seq![]);
    assert(texts(output@) =~= seq![]);
    while envt.pc < code.len()
        invariant
            spec_run(code@, constant_pool@, envt.pc as nat, texts(envt.stack@), texts(output@))
                == spec_run(code@, constant_pool@, 0, seq![], seq![]),
        decreases code@.len() - envt.pc,
    {
        let op = match read_operation(code, &mut envt) {
            Ok(op) => op,
            Err(e) => return Execution { output, status: Err(e) },
        };
        match execute_operation(op, constant_pool, &mut envt, &mut output) {
            Ok(true) => return Execution { output, status: Ok(()) },
            Ok(false) => {},
            Err(e) => return Execution { output, status: Err(e) },
        }
    }
    Execution { output, status: Err(VmError::MissingReturn) }
}

/// Decodes the instruction at the program counter and moves the counter past it.
fn read_operation(code: &Vec<u8>, envt: &mut Envt) -> (r: Result<Op, VmError>)
    requires
        old(envt).pc < code@.len(),
    ensures
        final(envt).stack == old(envt).stack,
        match opcode_arity(code@[old(envt).pc as int]) {
            None => r == Err::<Op, VmError>(VmError::UnknownOpcode),
            Some(n) => if old(envt).pc + 1 + n > code@.len() {
                r == Err::<Op, VmError>(VmError::TruncatedInput)
            } else {
                r matches Ok(op) && op.opcode == code@[old(envt).pc as int]
                    && op.operands@ == code@.subrange(old(envt).pc + 1, old(envt).pc + 1 + n)
                    && final(envt).pc == old(envt).pc + 1 + n
            },
        },
{
    let pc = envt.pc;
    let opcode = code[pc];
    let arity: usize = if opcode == 18 || opcode == 54 || opcode == 21 {
        1
    } else if opcode == 178 || opcode == 182 {
        2
    } else if opcode == 177 || opcode == 6 || opcode == 172 {
        0
    } else {
        return Err(VmError::UnknownOpcode);
    };
    if arity > code.len() - pc - 1 {
        return Err(VmError::TruncatedInput);
    }
    let mut operands: Vec<u8> = Vec::new();
    let mut k: usize = 0;
    while k < arity
        invariant
            k <= arity,
            pc + 1 + arity <= code@.len(),
            code@.len() <= usize::MAX,
            operands@ == code@.subrange(pc + 1, pc + 1 + k),
        decreases arity - k,
    {
        operands.push(code[pc + 1 + k]);
        k += 1;
        assert(operands@ =~= code@.subrange(pc + 1, pc + 1 + k));
    }
    envt.pc = pc + 1 + arity;
    Ok(Op { opcode, operands })
}

/// Carries out one decoded instruction; `Ok(true)` when it halts the run.
fn execute_operation(
    op: Op,
    constant_pool: &Vec<ConstantPoolEnum>,
    envt: &mut Envt,
    output: &mut Vec<String>,
) -> (r: Result<bool, VmError>)
    requires
        opcode_arity(op.opcode) == Some(op.operands@.len()),
    ensures
        final(envt).pc == old(envt).pc,
        !(r matches Ok(false)) ==> final(envt).stack@ == old(envt).stack@,
        !(r matches Ok(false)) ==> final(output)@ == old(output)@,
        match spec_step(op.opcode, op.operands@, constant_pool@, texts(old(envt).stack@), texts(old(output)@)) {
            Err(e) => r == Err::<bool, VmError>(e),
            Ok(None) => r == Ok::<bool, VmError>(true),
            Ok(Some((stack, out))) => r == Ok::<bool, VmError>(false)
                && texts(final(envt).stack@) == stack && texts(final(output)@) == out,
        },
{
    let ghost old_stack = envt.stack@;
    let ghost old_out = output@;
    match op.opcode {
        18 => {
            let name = ldc_text(constant_pool, op.operands[0] as u16)?;
            envt.stack.push(name);
            assert(texts(envt.stack@) =~= texts(old_stack).push(name@));
            Ok(false)
        },
        178 => {
            let cp_index = as_u2(op.operands[0], op.operands[1]);
            let name = static_name(constant_pool, cp_index)?;
            envt.stack.push(name);
            assert(texts(envt.stack@) =~= texts(old_stack).push(name@));
            Ok(false)
        },
        182 => {
            let cp_index = as_u2(op.operands[0], op.operands[1]);
            let (_, nat_index) = resolve_member_ref(constant_pool, cp_index)?;
            let method_name = resolve_member_name(constant_pool, nat_index)?;
            if method_name != "println".to_owned() {
                return Err(VmError::UnsupportedOperation);
            }
            if envt.stack.len() < 2 {
                return Err(VmError::StackUnderflow);
            }
            let arg = envt.stack.pop().unwrap();
            let _receiver = envt.stack.pop();
            output.push(arg);
            assert(texts(envt.stack@) =~= texts(old_stack).subrange(0, old_stack.len() - 2));
            assert(texts(output@) =~= texts(old_out).push(texts(old_stack).last()));
            Ok(false)
        },
        177 => Ok(true),
        6 | 54 | 21 | 172 => Err(VmError::UnimplementedOpcode),
        _ => Err(VmError::UnknownOpcode),
    }
}

/// The text of the String entry at `index`.
fn ldc_text(pool: &Vec<ConstantPoolEnum>, index: u16) -> (r: Result<String, VmError>)
    ensures
        match r {
            Ok(s) => spec_ldc_text(pool@, index as int) == Ok::<Seq<char>, VmError>(s@),
            Err(e) => spec_ldc_text(pool@, index as int) == Err::<Seq<char>, VmError>(e),
        },
{
    match resolve(pool, index)? {
        ConstantPoolEnum::ConstantStringItem(x) => resolve_utf8(pool, x.string_index),
        _ => Err(VmError::MalformedConstantPool),
    }
}

/// The `<class>.<member>` text of the member reference at `index`.
fn static_name(pool: &Vec<ConstantPoolEnum>, index: u16) -> (r: Result<String, VmError>)
    ensures
        match r {
            Ok(s) => spec_static_name(pool@, index as int) == Ok::<Seq<char>, VmError>(s@),
            Err(e) => spec_static_name(pool@, index as int) == Err::<Seq<char>, VmError>(e),
        },
{
    let (class_index, nat_index) = resolve_member_ref(pool, index)?;
    let class_name = resolve_class_name(pool, class_index)?;
    let member = resolve_member_name(pool, nat_index)?;
    Ok(class_name.concat(".").concat(member.as_str()))
}

/// Combines two bytes, most significant first, into a 16-bit value.
pub fn as_u2(byte1: u8, byte2: u8) -> (r: u16)
    ensures
        r == spec_as_u2(byte1, byte2),
{
    let r = ((byte1 as u16) << 8u16) | (byte2 as u16);
    assert(((byte1 as u16) << 8u16) | (byte2 as u16) == (byte1 as u16) * 256 + (byte2 as u16)) by (bit_vector);
    r
}

} // verus!
