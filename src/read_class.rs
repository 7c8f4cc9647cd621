use vstd::prelude::*;
use vstd::utf8::{encode_utf8, valid_utf8};
use byteorder::{BigEndian, ByteOrder};
use crate::class::{
    spec_class_name, spec_utf8, resolve_class_name, resolve_utf8, AttributeEnum, BytecodeClass,
    CodeClass, ExceptionTable, LineNumberTableClass, LineNumberTableElem, MethodInfo,
    SourceFileClass, StackMapTableClass, ConstantClassClass, ConstantFieldrefClass, ConstantMethodrefClass, ConstantNameAndTypeClass,
    ConstantPoolEnum, ConstantStringClass, ConstantUtf8Class,
};
use crate::error::VmError;

verus! {

/// The first four bytes of every class file.
pub const CLASS_MAGIC: u32 = 0xCAFE_BABE;

/// The big-endian 16-bit value at `pos`.
pub open spec fn be16(b: Seq<u8>, pos: int) -> u16 {
    (b[pos] as int * 256 + b[pos + 1] as int) as u16
}

/// The big-endian 32-bit value at `pos`.
pub open spec fn be32(b: Seq<u8>, pos: int) -> u32 {
    (b[pos] as int * 16777216 + b[pos + 1] as int * 65536 + b[pos + 2] as int * 256
        + b[pos + 3] as int) as u32
}

/// The big-endian encoding of a 16-bit value.
pub open spec fn u16_bytes(v: u16) -> Seq<u8> {
    seq![(v / 256) as u8, (v % 256) as u8]
}

/// Relies on byteorder's `BigEndian::read_u16`: the first two bytes of the slice, most significant first.
#[verifier::external_body]
fn read_be_u16(b: &[u8], pos: usize) -> (r: u16)
    requires
        pos + 2 <= b@.len(),
    ensures
        r == be16(b@, pos as int),
{
    BigEndian::read_u16(&b[pos..])
}

/// Relies on byteorder's `BigEndian::read_u32`: the first four bytes of the slice, most significant first.
#[verifier::external_body]
fn read_be_u32(b: &[u8], pos: usize) -> (r: u32)
    requires
        pos + 4 <= b@.len(),
    ensures
        r == be32(b@, pos as int),
{
    BigEndian::read_u32(&b[pos..])
}

/// Relies on `String::from_utf8`: it succeeds exactly on valid UTF-8, and the string keeps those bytes.
#[verifier::external_body]
fn text_from_utf8(v: Vec<u8>) -> (r: Option<String>)
    ensures
        match r {
            Some(s) => valid_utf8(v@) && encode_utf8(s@) == v@,
            None => !valid_utf8(v@),
        },
{
    String::from_utf8(v).ok()
}

proof fn lemma_be16_bytes(b: Seq<u8>, pos: int)
    requires
        0 <= pos,
        pos + 2 <= b.len(),
    ensures
        u16_bytes(be16(b, pos)) == b.subrange(pos, pos + 2),
{
    let hi = b[pos] as int;
    let lo = b[pos + 1] as int;
    assert((hi * 256 + lo) / 256 == hi && (hi * 256 + lo) % 256 == lo) by (nonlinear_arith)
        requires
            0 <= hi < 256,
            0 <= lo < 256,
    ;
    assert(u16_bytes(be16(b, pos)) =~= b.subrange(pos, pos + 2));
}

/// The 16-bit value at `pos`, or `TruncatedInput` where the bytes end first.
pub open spec fn spec_u16(b: Seq<u8>, pos: int) -> Result<u16, VmError> {
    if pos + 2 <= b.len() {
        Ok(be16(b, pos))
    } else {
        Err(VmError::TruncatedInput)
    }
}

fn take_u16(b: &[u8], pos: usize) -> (r: Result<u16, VmError>)
    requires
        pos <= b@.len(),
    ensures
        r == spec_u16(b@, pos as int),
{
    if b.len() - pos < 2 {
        Err(VmError::TruncatedInput)
    } else {
        Ok(read_be_u16(b, pos))
    }
}

/// A copy of the bytes from `start` up to `end`.
fn copy_bytes(b: &[u8], start: usize, end: usize) -> (r: Vec<u8>)
    requires
        start <= end <= b@.len(),
    ensures
        r@ == b@.subrange(start as int, end as int),
{
    let mut v: Vec<u8> = Vec::new();
    let mut i: usize = start;
    while i < end
        invariant
            start <= i <= end <= b@.len(),
            v@ == b@.subrange(start as int, i as int),
        decreases end - i,
    {
        v.push(b[i]);
        i += 1;
        assert(v@ =~= b@.subrange(start as int, i as int));
    }
    v
}

/// Where the pool entry that starts at `pos` ends, or why it cannot be read.
pub open spec fn cp_entry_end(b: Seq<u8>, pos: int) -> Result<int, VmError> {
    if pos >= b.len() {
        Err(VmError::TruncatedInput)
    } else if b[pos] == 1 {
        if pos + 3 > b.len() {
            Err(VmError::TruncatedInput)
        } else if pos + 3 + be16(b, pos + 1) > b.len() {
            Err(VmError::TruncatedInput)
        } else if !valid_utf8(b.subrange(pos + 3, pos + 3 + be16(b, pos + 1))) {
            Err(VmError::MalformedConstantPool)
        } else {
            Ok(pos + 3 + be16(b, pos + 1))
        }
    } else if b[pos] == 7 || b[pos] == 8 {
        if pos + 3 > b.len() {
            Err(VmError::TruncatedInput)
        } else {
            Ok(pos + 3)
        }
    } else if b[pos] == 9 || b[pos] == 10 || b[pos] == 12 {
        if pos + 5 > b.len() {
            Err(VmError::TruncatedInput)
        } else {
            Ok(pos + 5)
        }
    } else {
        Err(VmError::MalformedConstantPool)
    }
}

/// The serialized form of one pool entry: its tag, then its fields.
pub open spec fn cp_entry_bytes(e: ConstantPoolEnum) -> Seq<u8> {
    match e {
        ConstantPoolEnum::ConstantUtf8Item(x) => seq![1u8] + u16_bytes(x.length) + encode_utf8(x.bytes@),
        ConstantPoolEnum::ConstantClassItem(x) => seq![7u8] + u16_bytes(x.name_index),
        ConstantPoolEnum::ConstantStringItem(x) => seq![8u8] + u16_bytes(x.string_index),
        ConstantPoolEnum::ConstantFieldrefItem(x) => seq![9u8] + u16_bytes(x.class_index) + u16_bytes(
            x.name_and_type_index,
        ),
        ConstantPoolEnum::ConstantMethodrefItem(x) => seq![10u8] + u16_bytes(x.class_index) + u16_bytes(
            x.name_and_type_index,
        ),
        ConstantPoolEnum::ConstantNameAndTypeItem(x) => seq![12u8] + u16_bytes(x.name_index) + u16_bytes(
            x.descriptor_index,
        ),
    }
}

/// Where `count` consecutive pool entries starting at `pos` end, or why they cannot be read.
pub open spec fn pool_end(b: Seq<u8>, pos: int, count: nat) -> Result<int, VmError>
    decreases count,
{
    if count == 0 {
        Ok(pos)
    } else {
        match pool_end(b, pos, (count - 1) as nat) {
            Ok(p) => cp_entry_end(b, p),
            Err(e) => Err(e),
        }
    }
}

/// The serialized form of a sequence of pool entries.
pub open spec fn pool_bytes(pool: Seq<ConstantPoolEnum>) -> Seq<u8>
    decreases pool.len(),
{
    if pool.len() == 0 {
        seq![]
    } else {
        pool_bytes(pool.drop_last()) + cp_entry_bytes(pool.last())
    }
}

/// Every entry of the pool is well formed.
pub open spec fn pool_wf(pool: Seq<ConstantPoolEnum>) -> bool {
    forall|i: int| 0 <= i < pool.len() ==> #[trigger] pool[i].wf()
}

proof fn lemma_pool_end_err(b: Seq<u8>, pos: int, k: nat, count: nat, e: VmError)
    requires
        k <= count,
        pool_end(b, pos, k) == Err::<int, VmError>(e),
    ensures
        pool_end(b, pos, count) == Err::<int, VmError>(e),
    decreases count - k,
{
    if k < count {
        lemma_pool_end_err(b, pos, k + 1, count, e);
    }
}

/// Reads the pool entry that starts at `pos`.
pub fn read_cp_info(b: &[u8], pos: usize) -> (r: Result<(ConstantPoolEnum, usize), VmError>)
    requires
        pos <= b@.len(),
    ensures
        match r {
            Ok((e, end)) => cp_entry_end(b@, pos as int) == Ok::<int, VmError>(end as int)
                && b@.subrange(pos as int, end as int) == cp_entry_bytes(e) && e.wf(),
            Err(err) => cp_entry_end(b@, pos as int) == Err::<int, VmError>(err),
        },
{
    if pos >= b.len() {
        return Err(VmError::TruncatedInput);
    }
    let tag = b[pos];
    if tag == 1 {
        let n_bytes = take_u16(b, pos + 1)?;
        if (n_bytes as usize) > b.len() - pos - 3 {
            return Err(VmError::TruncatedInput);
        }
        let end = pos + 3 + n_bytes as usize;
        let raw = copy_bytes(b, pos + 3, end);
        match text_from_utf8(raw) {
            Some(text) => {
                let e = ConstantPoolEnum::ConstantUtf8Item(ConstantUtf8Class { length: n_bytes, bytes: text });
                proof {
                    lemma_be16_bytes(b@, pos + 1);
                    assert(b@.subrange(pos as int, end as int) =~= seq![1u8] + b@.subrange(pos + 1, pos + 3)
                        + b@.subrange(pos + 3, end as int));
                }
                Ok((e, end))
            },
            None => Err(VmError::MalformedConstantPool),
        }
    } else if tag == 7 || tag == 8 {
        let index = take_u16(b, pos + 1)?;
        let e = if tag == 7 {
            ConstantPoolEnum::ConstantClassItem(ConstantClassClass { name_index: index })
        } else {
            ConstantPoolEnum::ConstantStringItem(ConstantStringClass { string_index: index })
        };
        proof {
            lemma_be16_bytes(b@, pos + 1);
            assert(b@.subrange(pos as int, pos + 3) =~= seq![tag] + b@.subrange(pos + 1, pos + 3));
        }
        Ok((e, pos + 3))
    } else if tag == 9 || tag == 10 || tag == 12 {
        if b.len() - pos < 5 {
            return Err(VmError::TruncatedInput);
        }
        let first = read_be_u16(b, pos + 1);
        let second = read_be_u16(b, pos + 3);
        let e = if tag == 9 {
            ConstantPoolEnum::ConstantFieldrefItem(
                ConstantFieldrefClass { class_index: first, name_and_type_index: second },
            )
        } else if tag == 10 {
            ConstantPoolEnum::ConstantMethodrefItem(
                ConstantMethodrefClass { class_index: first, name_and_type_index: second },
            )
        } else {
            ConstantPoolEnum::ConstantNameAndTypeItem(
                ConstantNameAndTypeClass { name_index: first, descriptor_index: second },
            )
        };
        proof {
            lemma_be16_bytes(b@, pos + 1);
            lemma_be16_bytes(b@, pos + 3);
            assert(b@.subrange(pos as int, pos + 5) =~= seq![tag] + b@.subrange(pos + 1, pos + 3)
                + b@.subrange(pos + 3, pos + 5));
        }
        Ok((e, pos + 5))
    } else {
        Err(VmError::MalformedConstantPool)
    }
}

/// Reads `count` consecutive pool entries starting at `pos`.
pub fn read_constant_pool(b: &[u8], pos: usize, count: u16) -> (r: Result<(Vec<ConstantPoolEnum>, usize), VmError>)
    requires
        pos <= b@.len(),
    ensures
        match r {
            Ok((pool, end)) => pool_end(b@, pos as int, count as nat) == Ok::<int, VmError>(end as int)
                && pos <= end <= b@.len()
                && pool@.len() == count && pool_wf(pool@)
                && b@.subrange(pos as int, end as int) == pool_bytes(pool@),
            Err(e) => pool_end(b@, pos as int, count as nat) == Err::<int, VmError>(e),
        },
{
    let mut pool: Vec<ConstantPoolEnum> = Vec::new();
    let mut cur: usize = pos;
    let mut i: u16 = 0;
    assert(b@.subrange(pos as int, pos as int) =~= pool_bytes(pool@));
    while i < count
        invariant
            i <= count,
            pos <= cur <= b@.len(),
            pool_end(b@, pos as int, i as nat) == Ok::<int, VmError>(cur as int),
            pool@.len() == i,
            pool_wf(pool@),
            b@.subrange(pos as int, cur as int) == pool_bytes(pool@),
        decreases count - i,
    {
        match read_cp_info(b, cur) {
            Ok((e, end)) => {
                let ghost old_pool = pool@;
                pool.push(e);
                proof {
                    assert(pool@.drop_last() =~= old_pool);
                    assert(b@.subrange(pos as int, end as int) =~= b@.subrange(pos as int, cur as int)
                        + b@.subrange(cur as int, end as int));
                    assert forall|j: int| 0 <= j < pool@.len() implies #[trigger] pool@[j].wf() by {
                        if j < old_pool.len() {
                            assert(old_pool[j].wf());
                        }
                    }
                }
                cur = end;
                i += 1;
            },
            Err(e) => {
                proof {
                    lemma_pool_end_err(b@, pos as int, (i + 1) as nat, count as nat, e);
                }
                return Err(e);
            },
        }
    }
    Ok((pool, cur))
}

/// The name of the attribute that starts at `pos`, once its header has been checked:
/// the name must be one of the four known ones. Whether the body takes the declared
/// length is checked once the body has been read.
pub open spec fn attribute_header(b: Seq<u8>, pos: int, pool: Seq<ConstantPoolEnum>) -> Result<Seq<char>, VmError> {
    if pos + 6 > b.len() {
        Err(VmError::TruncatedInput)
    } else {
        match spec_utf8(pool, be16(b, pos) as int) {
            Err(e) => Err(e),
            Ok(name) => if name != "Code"@ && name != "LineNumberTable"@ && name != "StackMapTable"@
                && name != "SourceFile"@ {
                Err(VmError::UnknownAttribute)
            } else {
                Ok(name)
            },
        }
    }
}

/// `a` is what the attribute record at `pos` holds: the variant its name selects, the
/// fields of its body and, for a Code attribute, each nested record in file order.
pub open spec fn attr_read_as(a: AttributeEnum, b: Seq<u8>, pos: int, pool: Seq<ConstantPoolEnum>) -> bool
    decreases b.len() - pos, 1int,
{
    attribute_header(b, pos, pool) is Ok && {
        let name = attribute_header(b, pos, pool)->Ok_0;
        match a {
            AttributeEnum::CodeItem(c) => name == "Code"@ && c.attribute_name@ == name
                && c.attribute_name_index == be16(b, pos) && c.attribute_length == be32(b, pos + 2)
                && c.max_stack == be16(b, pos + 6) && c.max_locals == be16(b, pos + 8)
                && c.code_length == be32(b, pos + 10)
                && c.code@ == b.subrange(pos + 14, pos + 14 + c.code_length)
                && c.exception_table_length == 0
                && c.attributes_count == be16(b, pos + 16 + c.code_length)
                && c.attributes@.len() == c.attributes_count
                && nested_read_as(c.attributes@, b, pos, pos + 18 + c.code_length, pool),
            AttributeEnum::LineNumberTableItem(t) => name == "LineNumberTable"@ && t.attribute_name@ == name
                && t.attribute_name_index == be16(b, pos) && t.attribute_length == be32(b, pos + 2)
                && t.line_number_table_length == be16(b, pos + 6)
                && t.line_number_table@.len() == t.line_number_table_length
                && forall|i: int| 0 <= i < t.line_number_table@.len() ==> {
                    &&& (#[trigger] t.line_number_table@[i]).start_pc == be16(b, pos + 8 + 4 * i)
                    &&& t.line_number_table@[i].line_number == be16(b, pos + 10 + 4 * i)
                },
            AttributeEnum::StackMapTableItem(t) => name == "StackMapTable"@ && t.attribute_name@ == name
                && t.attribute_name_index == be16(b, pos) && t.attribute_length == be32(b, pos + 2),
            AttributeEnum::SourceFileItem(f) => name == "SourceFile"@ && f.attribute_name@ == name
                && f.attribute_name_index == be16(b, pos) && f.sourcefile_index == be16(b, pos + 6),
        }
    }
}

/// `a` is what the `k`-th record of the run of attribute records starting at `start` holds.
pub open spec fn attr_at(a: AttributeEnum, b: Seq<u8>, start: int, k: int, pool: Seq<ConstantPoolEnum>) -> bool {
    &&& attrs_end(b, start, k as nat, pool) is Ok
    &&& start <= attrs_end(b, start, k as nat, pool)->Ok_0 <= b.len()
    &&& attr_read_as(a, b, attrs_end(b, start, k as nat, pool)->Ok_0, pool)
}

/// Each of `attrs` is what the corresponding record of the run starting at `start` holds,
/// where that run is nested in the record at `pos`.
pub open spec fn nested_read_as(
    attrs: Seq<AttributeEnum>,
    b: Seq<u8>,
    pos: int,
    start: int,
    pool: Seq<ConstantPoolEnum>,
) -> bool
    decreases b.len() - pos, 0int,
{
    forall|k: int| 0 <= k < attrs.len() ==> {
        &&& #[trigger] attrs_end(b, start, k as nat, pool) is Ok
        &&& pos < attrs_end(b, start, k as nat, pool)->Ok_0 <= b.len()
        &&& attr_read_as(attrs[k], b, attrs_end(b, start, k as nat, pool)->Ok_0, pool)
    }
}

/// Each of `attrs` is what the corresponding record of the run starting at `pos` holds.
pub open spec fn attrs_read_as(attrs: Seq<AttributeEnum>, b: Seq<u8>, pos: int, pool: Seq<ConstantPoolEnum>) -> bool {
    forall|k: int| 0 <= k < attrs.len() ==> #[trigger] attr_at(attrs[k], b, pos, k, pool)
}

/// Where the attribute record that starts at `pos` ends, or why it cannot be read.
/// Its body must take exactly the length that its header declares.
pub open spec fn attr_end(b: Seq<u8>, pos: int, pool: Seq<ConstantPoolEnum>) -> Result<int, VmError>
    decreases b.len() - pos, 0int, 0int,
{
    match attribute_header(b, pos, pool) {
        Err(e) => Err(e),
        Ok(name) => {
            let start = pos + 6;
            let body_end = start + be32(b, pos + 2);
            if name == "Code"@ {
                if start + 8 > b.len() {
                    Err(VmError::TruncatedInput)
                } else if start + 8 + be32(b, start + 4) + 2 > b.len() {
                    Err(VmError::TruncatedInput)
                } else if be16(b, start + 8 + be32(b, start + 4)) != 0 {
                    Err(VmError::UnsupportedFeature)
                } else if start + 8 + be32(b, start + 4) + 4 > b.len() {
                    Err(VmError::TruncatedInput)
                } else {
                    let code_end = start + 8 + be32(b, start + 4);
                    match attrs_end(b, code_end + 4, be16(b, code_end + 2) as nat, pool) {
                        Err(e) => Err(e),
                        Ok(end) => if end != body_end {
                            Err(VmError::MalformedAttribute)
                        } else {
                            Ok(end)
                        },
                    }
                }
            } else if name == "LineNumberTable"@ {
                if start + 2 > b.len() {
                    Err(VmError::TruncatedInput)
                } else if start + 2 + 4 * be16(b, start) > b.len() {
                    Err(VmError::TruncatedInput)
                } else if start + 2 + 4 * be16(b, start) != body_end {
                    Err(VmError::MalformedAttribute)
                } else {
                    Ok(body_end)
                }
            } else if name == "StackMapTable"@ {
                if body_end > b.len() {
                    Err(VmError::TruncatedInput)
                } else {
                    Ok(body_end)
                }
            } else {
                if start + 2 > b.len() {
                    Err(VmError::TruncatedInput)
                } else if start + 2 != body_end {
                    Err(VmError::MalformedAttribute)
                } else {
                    Ok(body_end)
                }
            }
        },
    }
}

/// Where `count` consecutive attribute records starting at `pos` end, or why they cannot be read.
pub open spec fn attrs_end(b: Seq<u8>, pos: int, count: nat, pool: Seq<ConstantPoolEnum>) -> Result<int, VmError>
    decreases b.len() - pos, 1int, count,
{
    if pos > b.len() {
        Err(VmError::TruncatedInput)
    } else if count == 0 {
        Ok(pos)
    } else {
        match attrs_end(b, pos, (count - 1) as nat, pool) {
            Err(e) => Err(e),
            Ok(p) => if p < pos || p > b.len() {
                Err(VmError::TruncatedInput)
            } else {
                attr_end(b, p, pool)
            },
        }
    }
}

proof fn lemma_attrs_end_err(b: Seq<u8>, pos: int, k: nat, count: nat, pool: Seq<ConstantPoolEnum>, e: VmError)
    requires
        pos <= b.len(),
        k <= count,
        attrs_end(b, pos, k, pool) == Err::<int, VmError>(e),
    ensures
        attrs_end(b, pos, count, pool) == Err::<int, VmError>(e),
    decreases count - k,
{
    if k < count {
        lemma_attrs_end_err(b, pos, k + 1, count, pool, e);
    }
}

/// Reads the attribute that starts at `pos`, nested attributes included.
pub fn read_attribute(b: &[u8], pos: usize, pool: &Vec<ConstantPoolEnum>) -> (r: Result<(AttributeEnum, usize), VmError>)
    requires
        pos <= b@.len(),
    ensures
        match r {
            Ok((a, end)) => attr_end(b@, pos as int, pool@) == Ok::<int, VmError>(end as int)
                && attr_read_as(a, b@, pos as int, pool@),
            Err(e) => attr_end(b@, pos as int, pool@) == Err::<int, VmError>(e),
        },
    decreases b@.len() - pos, 0int,
{
    if b.len() - pos < 6 {
        return Err(VmError::TruncatedInput);
    }
    let name_index = read_be_u16(b, pos);
    let attribute_length = read_be_u32(b, pos + 2);
    let attribute_name = resolve_utf8(pool, name_index)?;
    let code_name = "Code".to_owned();
    let line_name = "LineNumberTable".to_owned();
    let stack_map_name = "StackMapTable".to_owned();
    let source_name = "SourceFile".to_owned();
    if attribute_name != code_name && attribute_name != line_name && attribute_name != stack_map_name
        && attribute_name != source_name {
        return Err(VmError::UnknownAttribute);
    }
    let start = pos + 6;
    if attribute_name == code_name {
        if b.len() - start < 8 {
            return Err(VmError::TruncatedInput);
        }
        let max_stack = read_be_u16(b, start);
        let max_locals = read_be_u16(b, start + 2);
        let code_length = read_be_u32(b, start + 4);
        if code_length as usize > b.len() - (start + 8) {
            return Err(VmError::TruncatedInput);
        }
        let code_end = start + 8 + code_length as usize;
        if b.len() - code_end < 2 {
            return Err(VmError::TruncatedInput);
        }
        let exception_table_length = read_be_u16(b, code_end);
        if exception_table_length != 0 {
            return Err(VmError::UnsupportedFeature);
        }
        if b.len() - code_end < 4 {
            return Err(VmError::TruncatedInput);
        }
        let code = copy_bytes(b, start + 8, code_end);
        let attributes_count = read_be_u16(b, code_end + 2);
        let (attributes, end) = read_attributes(b, code_end + 4, attributes_count, pool)?;
        if end - start != attribute_length as usize {
            return Err(VmError::MalformedAttribute);
        }
        let ghost nested = attributes@;
        let a = AttributeEnum::CodeItem(CodeClass {
            attribute_name_index: name_index,
            attribute_name,
            attribute_length,
            max_stack,
            max_locals,
            code_length,
            code,
            exception_table_length,
            exception_table: ExceptionTable {},
            attributes_count,
            attributes,
        });
        proof {
            let c = a->CodeItem_0;
            assert(c.attributes@ == nested);
            assert forall|k: int| 0 <= k < nested.len() implies {
                &&& #[trigger] attrs_end(b@, code_end + 4, k as nat, pool@) is Ok
                &&& pos < attrs_end(b@, code_end + 4, k as nat, pool@)->Ok_0 <= b@.len()
                &&& attr_read_as(nested[k], b@, attrs_end(b@, code_end + 4, k as nat, pool@)->Ok_0, pool@)
            } by {
                assert(attr_at(nested[k], b@, code_end + 4, k, pool@));
            }
            assert(nested_read_as(nested, b@, pos as int, code_end + 4, pool@));
            assert(attr_read_as(a, b@, pos as int, pool@));
        }
        Ok((a, end))
    } else if attribute_name == line_name {
        if b.len() - start < 2 {
            return Err(VmError::TruncatedInput);
        }
        let line_number_table_length = read_be_u16(b, start);
        if 4 * (line_number_table_length as usize) > b.len() - start - 2 {
            return Err(VmError::TruncatedInput);
        }
        if 2 + 4 * (line_number_table_length as usize) != attribute_length as usize {
            return Err(VmError::MalformedAttribute);
        }
        let mut line_number_table: Vec<LineNumberTableElem> = Vec::new();
        let mut cur: usize = start + 2;
        let mut i: u16 = 0;
        while i < line_number_table_length
            invariant
                i <= line_number_table_length,
                b@.len() <= usize::MAX,
                start == pos + 6,
                line_number_table_length == be16(b@, start as int),
                attribute_length == be32(b@, pos + 2),
                name_index == be16(b@, pos as int),
                attribute_name@ == "LineNumberTable"@,
                attr_end(b@, pos as int, pool@) == Ok::<int, VmError>(start + 2 + 4 * line_number_table_length),
                attribute_header(b@, pos as int, pool@) == Ok::<Seq<char>, VmError>(attribute_name@),
                start + 2 + 4 * line_number_table_length <= b@.len(),
                cur == start + 2 + 4 * i,
                line_number_table@.len() == i,
                forall|j: int| 0 <= j < i ==> {
                    &&& (#[trigger] line_number_table@[j]).start_pc == be16(b@, start + 2 + 4 * j)
                    &&& line_number_table@[j].line_number == be16(b@, start + 4 + 4 * j)
                },
            decreases line_number_table_length - i,
        {
            let start_pc = read_be_u16(b, cur);
            let line_number = read_be_u16(b, cur + 2);
            line_number_table.push(LineNumberTableElem { start_pc, line_number });
            cur = cur + 4;
            i += 1;
        }
        let a = AttributeEnum::LineNumberTableItem(LineNumberTableClass {
            attribute_name_index: name_index,
            attribute_name,
            attribute_length,
            line_number_table_length,
            line_number_table,
        });
        Ok((a, cur))
    } else if attribute_name == stack_map_name {
        if attribute_length as usize > b.len() - start {
            return Err(VmError::TruncatedInput);
        }
        let body_end = start + attribute_length as usize;
        let a = AttributeEnum::StackMapTableItem(StackMapTableClass {
            attribute_name_index: name_index,
            attribute_name,
            attribute_length,
        });
        Ok((a, body_end))
    } else {
        if b.len() - start < 2 {
            return Err(VmError::TruncatedInput);
        }
        let sourcefile_index = read_be_u16(b, start);
        if attribute_length != 2 {
            return Err(VmError::MalformedAttribute);
        }
        let a = AttributeEnum::SourceFileItem(SourceFileClass {
            attribute_name_index: name_index,
            attribute_name,
            sourcefile_index,
        });
        Ok((a, start + 2))
    }
}

/// Reads `count` consecutive attributes starting at `pos`.
pub fn read_attributes(b: &[u8], pos: usize, count: u16, pool: &Vec<ConstantPoolEnum>) -> (r: Result<(Vec<AttributeEnum>, usize), VmError>)
    requires
        pos <= b@.len(),
    ensures
        match r {
            Ok((attrs, end)) => attrs_end(b@, pos as int, count as nat, pool@) == Ok::<int, VmError>(end as int)
                && pos <= end <= b@.len() && attrs@.len() == count && attrs_read_as(attrs@, b@, pos as int, pool@),
            Err(e) => attrs_end(b@, pos as int, count as nat, pool@) == Err::<int, VmError>(e),
        },
    decreases b@.len() - pos, 1int,
{
    let mut attrs: Vec<AttributeEnum> = Vec::new();
    let mut cur: usize = pos;
    let mut i: u16 = 0;
    while i < count
        invariant
            i <= count,
            pos <= cur <= b@.len(),
            attrs_end(b@, pos as int, i as nat, pool@) == Ok::<int, VmError>(cur as int),
            attrs@.len() == i,
            attrs_read_as(attrs@, b@, pos as int, pool@),
        decreases count - i,
    {
        match read_attribute(b, cur, pool) {
            Ok((a, end)) => {
                proof {
                    attr_end_bounds(b@, cur as int, pool@, end as int);
                }
                let ghost before = attrs@;
                attrs.push(a);
                proof {
                    assert forall|k: int| 0 <= k < attrs@.len() implies #[trigger] attr_at(attrs@[k], b@, pos as int, k, pool@) by {
                        if k < before.len() {
                            assert(attrs@[k] == before[k]);
                            assert(attr_at(before[k], b@, pos as int, k, pool@));
                        }
                    }
                    assert(attrs_read_as(attrs@, b@, pos as int, pool@));
                }
                cur = end;
                i += 1;
            },
            Err(e) => {
                proof {
                    lemma_attrs_end_err(b@, pos as int, (i + 1) as nat, count as nat, pool@, e);
                }
                return Err(e);
            },
        }
    }
    Ok((attrs, cur))
}

proof fn attr_end_bounds(b: Seq<u8>, pos: int, pool: Seq<ConstantPoolEnum>, end: int)
    requires
        attr_end(b, pos, pool) == Ok::<int, VmError>(end),
    ensures
        pos + 6 <= end <= b.len(),
    decreases b.len() - pos, 0int, 0int,
{
    let name = attribute_header(b, pos, pool)->Ok_0;
    if name == "Code"@ {
        let start = pos + 6;
        let code_end = start + 8 + be32(b, start + 4);
        attrs_end_bounds(b, code_end + 4, be16(b, code_end + 2) as nat, pool, end);
    }
}

proof fn attrs_end_bounds(b: Seq<u8>, pos: int, count: nat, pool: Seq<ConstantPoolEnum>, end: int)
    requires
        attrs_end(b, pos, count, pool) == Ok::<int, VmError>(end),
    ensures
        pos <= end <= b.len(),
    decreases b.len() - pos, 1int, count,
{
    if count > 0 {
        let prev = attrs_end(b, pos, (count - 1) as nat, pool)->Ok_0;
        attrs_end_bounds(b, pos, (count - 1) as nat, pool, prev);
        attr_end_bounds(b, prev, pool, end);
    }
}

/// Where the method record that starts at `pos` ends, or why it cannot be read.
pub open spec fn method_end(b: Seq<u8>, pos: int, pool: Seq<ConstantPoolEnum>) -> Result<int, VmError> {
    if pos + 8 > b.len() {
        Err(VmError::TruncatedInput)
    } else if spec_utf8(pool, be16(b, pos + 2) as int) is Err {
        Err(spec_utf8(pool, be16(b, pos + 2) as int)->Err_0)
    } else if spec_utf8(pool, be16(b, pos + 4) as int) is Err {
        Err(spec_utf8(pool, be16(b, pos + 4) as int)->Err_0)
    } else {
        attrs_end(b, pos + 8, be16(b, pos + 6) as nat, pool)
    }
}

/// Where `count` consecutive method records starting at `pos` end, or why they cannot be read.
pub open spec fn methods_end(b: Seq<u8>, pos: int, count: nat, pool: Seq<ConstantPoolEnum>) -> Result<int, VmError>
    decreases count,
{
    if count == 0 {
        Ok(pos)
    } else {
        match methods_end(b, pos, (count - 1) as nat, pool) {
            Ok(p) => method_end(b, p, pool),
            Err(e) => Err(e),
        }
    }
}

proof fn lemma_methods_end_err(b: Seq<u8>, pos: int, k: nat, count: nat, pool: Seq<ConstantPoolEnum>, e: VmError)
    requires
        k <= count,
        methods_end(b, pos, k, pool) == Err::<int, VmError>(e),
    ensures
        methods_end(b, pos, count, pool) == Err::<int, VmError>(e),
    decreases count - k,
{
    if k < count {
        lemma_methods_end_err(b, pos, k + 1, count, pool, e);
    }
}

/// `m` is what the method record at `pos` holds, its attributes in file order.
pub open spec fn method_read_as(m: MethodInfo, b: Seq<u8>, pos: int, pool: Seq<ConstantPoolEnum>) -> bool {
    &&& m.access_flags == be16(b, pos)
    &&& m.name_index == be16(b, pos + 2)
    &&& spec_utf8(pool, m.name_index as int) == Ok::<Seq<char>, VmError>(m.name@)
    &&& m.descriptor_index == be16(b, pos + 4)
    &&& spec_utf8(pool, m.descriptor_index as int) == Ok::<Seq<char>, VmError>(m.descriptor@)
    &&& m.attributes_count == be16(b, pos + 6)
    &&& m.attributes@.len() == m.attributes_count
    &&& attrs_read_as(m.attributes@, b, pos + 8, pool)
}

/// `m` is what the `k`-th record of the run of method records starting at `start` holds.
pub open spec fn method_at(m: MethodInfo, b: Seq<u8>, start: int, k: int, pool: Seq<ConstantPoolEnum>) -> bool {
    &&& methods_end(b, start, k as nat, pool) is Ok
    &&& start <= methods_end(b, start, k as nat, pool)->Ok_0 <= b.len()
    &&& method_read_as(m, b, methods_end(b, start, k as nat, pool)->Ok_0, pool)
}

/// Each of `methods` is what the corresponding record of the run starting at `pos` holds.
pub open spec fn methods_read_as(methods: Seq<MethodInfo>, b: Seq<u8>, pos: int, pool: Seq<ConstantPoolEnum>) -> bool {
    forall|k: int| 0 <= k < methods.len() ==> #[trigger] method_at(methods[k], b, pos, k, pool)
}

/// Reads the method record that starts at `pos`.
pub fn read_method_info(b: &[u8], pos: usize, pool: &Vec<ConstantPoolEnum>) -> (r: Result<(MethodInfo, usize), VmError>)
    requires
        pos <= b@.len(),
    ensures
        match r {
            Ok((m, end)) => method_end(b@, pos as int, pool@) == Ok::<int, VmError>(end as int)
                && pos + 8 <= end <= b@.len()
                && method_read_as(m, b@, pos as int, pool@),
            Err(e) => method_end(b@, pos as int, pool@) == Err::<int, VmError>(e),
        },
{
    if b.len() - pos < 8 {
        return Err(VmError::TruncatedInput);
    }
    let access_flags = read_be_u16(b, pos);
    let name_index = read_be_u16(b, pos + 2);
    let descriptor_index = read_be_u16(b, pos + 4);
    let attributes_count = read_be_u16(b, pos + 6);
    let name = resolve_utf8(pool, name_index)?;
    let descriptor = resolve_utf8(pool, descriptor_index)?;
    let (attributes, end) = read_attributes(b, pos + 8, attributes_count, pool)?;
    let m = MethodInfo {
        access_flags,
        name_index,
        name,
        descriptor_index,
        descriptor,
        attributes_count,
        attributes,
    };
    Ok((m, end))
}

/// Reads `count` consecutive method records starting at `pos`.
pub fn read_methods(b: &[u8], pos: usize, count: u16, pool: &Vec<ConstantPoolEnum>) -> (r: Result<(Vec<MethodInfo>, usize), VmError>)
    requires
        pos <= b@.len(),
    ensures
        match r {
            Ok((methods, end)) => methods_end(b@, pos as int, count as nat, pool@) == Ok::<int, VmError>(end as int)
                && methods@.len() == count && pos <= end <= b@.len()
                && methods_read_as(methods@, b@, pos as int, pool@),
            Err(e) => methods_end(b@, pos as int, count as nat, pool@) == Err::<int, VmError>(e),
        },
{
    let mut methods: Vec<MethodInfo> = Vec::new();
    let mut cur: usize = pos;
    let mut i: u16 = 0;
    while i < count
        invariant
            i <= count,
            pos <= cur <= b@.len(),
            methods_end(b@, pos as int, i as nat, pool@) == Ok::<int, VmError>(cur as int),
            methods@.len() == i,
            methods_read_as(methods@, b@, pos as int, pool@),
        decreases count - i,
    {
        match read_method_info(b, cur, pool) {
            Ok((m, end)) => {
                let ghost before = methods@;
                methods.push(m);
                proof {
                    assert forall|k: int| 0 <= k < methods@.len() implies #[trigger] method_at(methods@[k], b@, pos as int, k, pool@) by {
                        if k < before.len() {
                            assert(methods@[k] == before[k]);
                            assert(method_at(before[k], b@, pos as int, k, pool@));
                        }
                    }
                }
                cur = end;
                i += 1;
            },
            Err(e) => {
                proof {
                    lemma_methods_end_err(b@, pos as int, (i + 1) as nat, count as nat, pool@, e);
                }
                return Err(e);
            },
        }
    }
    Ok((methods, cur))
}

/// Where the constant pool ends, once magic, versions and pool have been checked.
pub open spec fn header_end(b: Seq<u8>) -> Result<int, VmError> {
    if b.len() < 4 {
        Err(VmError::TruncatedInput)
    } else if be32(b, 0) != CLASS_MAGIC {
        Err(VmError::BadMagic)
    } else if b.len() < 10 {
        Err(VmError::TruncatedInput)
    } else if be16(b, 8) == 0 {
        Err(VmError::MalformedConstantPool)
    } else {
        pool_end(b, 10, (be16(b, 8) - 1) as nat)
    }
}

/// The bytes from 10 up to `end` are the constant pool `pool`, sized by the count at 8.
pub open spec fn decodes_pool(b: Seq<u8>, end: int, pool: Seq<ConstantPoolEnum>) -> bool {
    &&& 10 <= end <= b.len()
    &&& pool.len() + 1 == be16(b, 8)
    &&& pool_wf(pool)
    &&& b.subrange(10, end) == pool_bytes(pool)
}

/// Where the methods count stands, once the fields between the pool (ending at `p`) and
/// the methods have been checked: both class names resolve, and no interface or field is declared.
pub open spec fn fields_end(b: Seq<u8>, p: int, pool: Seq<ConstantPoolEnum>) -> Result<int, VmError> {
    if p + 4 > b.len() {
        Err(VmError::TruncatedInput)
    } else if spec_class_name(pool, be16(b, p + 2) as int) is Err {
        Err(spec_class_name(pool, be16(b, p + 2) as int)->Err_0)
    } else if p + 6 > b.len() {
        Err(VmError::TruncatedInput)
    } else if spec_class_name(pool, be16(b, p + 4) as int) is Err {
        Err(spec_class_name(pool, be16(b, p + 4) as int)->Err_0)
    } else if p + 8 > b.len() {
        Err(VmError::TruncatedInput)
    } else if be16(b, p + 6) != 0 {
        Err(VmError::UnsupportedFeature)
    } else if p + 10 > b.len() {
        Err(VmError::TruncatedInput)
    } else if be16(b, p + 8) != 0 {
        Err(VmError::UnsupportedFeature)
    } else if p + 12 > b.len() {
        Err(VmError::TruncatedInput)
    } else {
        Ok(p + 10)
    }
}

/// Where the class file ends, once methods and top-level attributes have been read
/// from `q`, the position of the methods count.
pub open spec fn class_end(b: Seq<u8>, q: int, pool: Seq<ConstantPoolEnum>) -> Result<int, VmError> {
    match methods_end(b, q + 2, be16(b, q) as nat, pool) {
        Err(e) => Err(e),
        Ok(m) => if m + 2 > b.len() {
            Err(VmError::TruncatedInput)
        } else {
            attrs_end(b, m + 2, be16(b, m) as nat, pool)
        },
    }
}

/// What reading the bytes after a constant pool `pool` that ends at `p` gives.
pub open spec fn class_read_after_pool(
    b: Seq<u8>,
    p: int,
    pool: Seq<ConstantPoolEnum>,
    r: Result<BytecodeClass, VmError>,
) -> bool {
    match fields_end(b, p, pool) {
        Err(e) => r == Err::<BytecodeClass, VmError>(e),
        Ok(q) => match class_end(b, q, pool) {
            Err(e) => r == Err::<BytecodeClass, VmError>(e),
            Ok(_) => r matches Ok(c) && c.magic == CLASS_MAGIC && c.minor_version == be16(b, 4)
                && c.major_version == be16(b, 6) && c.constant_pool@ == pool
                && c.access_flags == be16(b, p) && c.this_class == be16(b, p + 2)
                && spec_class_name(pool, c.this_class as int) == Ok::<Seq<char>, VmError>(c.this_class_name@)
                && c.super_class == be16(b, p + 4)
                && spec_class_name(pool, c.super_class as int) == Ok::<Seq<char>, VmError>(c.super_class_name@)
                && c.methods@.len() == be16(b, q)
                && methods_read_as(c.methods@, b, q + 2, pool)
                && c.attributes@.len() == be16(b, methods_end(b, q + 2, be16(b, q) as nat, pool)->Ok_0)
                && attrs_read_as(c.attributes@, b, methods_end(b, q + 2, be16(b, q) as nat, pool)->Ok_0 + 2, pool),
        },
    }
}

/// Reads a whole class file.
pub fn parse(b: &[u8]) -> (r: Result<BytecodeClass, VmError>)
    ensures
        b@.len() >= 4 && be32(b@, 0) != CLASS_MAGIC ==> r == Err::<BytecodeClass, VmError>(VmError::BadMagic),
        match header_end(b@) {
            Err(e) => r == Err::<BytecodeClass, VmError>(e),
            Ok(p) => exists|pool: Seq<ConstantPoolEnum>|
                #[trigger] decodes_pool(b@, p, pool) && class_read_after_pool(b@, p, pool, r),
        },
{
    if b.len() < 4 {
        return Err(VmError::TruncatedInput);
    }
    let magic = read_be_u32(b, 0);
    if magic != CLASS_MAGIC {
        return Err(VmError::BadMagic);
    }
    if b.len() < 10 {
        return Err(VmError::TruncatedInput);
    }
    let minor_version = read_be_u16(b, 4);
    let major_version = read_be_u16(b, 6);
    let constant_pool_count = read_be_u16(b, 8);
    if constant_pool_count == 0 {
        return Err(VmError::MalformedConstantPool);
    }
    let (constant_pool, p) = read_constant_pool(b, 10, constant_pool_count - 1)?;
    let ghost pool = constant_pool@;
    let result = parse_after_pool(b, p, constant_pool, magic, minor_version, major_version);
    proof {
        let end = header_end(b@)->Ok_0;
        assert(end == p);
        assert(decodes_pool(b@, end, pool) && class_read_after_pool(b@, end, pool, result));
    }
    result
}

/// Reads what follows the constant pool, which ends at `p`.
fn parse_after_pool(
    b: &[u8],
    p: usize,
    constant_pool: Vec<ConstantPoolEnum>,
    magic: u32,
    minor_version: u16,
    major_version: u16,
) -> (r: Result<BytecodeClass, VmError>)
    requires
        10 <= p <= b@.len(),
        magic == CLASS_MAGIC,
        minor_version == be16(b@, 4),
        major_version == be16(b@, 6),
    ensures
        class_read_after_pool(b@, p as int, constant_pool@, r),
{
    if b.len() - p < 4 {
        return Err(VmError::TruncatedInput);
    }
    let access_flags = read_be_u16(b, p);
    let this_class = read_be_u16(b, p + 2);
    let this_class_name = resolve_class_name(&constant_pool, this_class)?;
    if b.len() - p < 6 {
        return Err(VmError::TruncatedInput);
    }
    let super_class = read_be_u16(b, p + 4);
    let super_class_name = resolve_class_name(&constant_pool, super_class)?;
    if b.len() - p < 8 {
        return Err(VmError::TruncatedInput);
    }
    if read_be_u16(b, p + 6) != 0 {
        return Err(VmError::UnsupportedFeature);
    }
    if b.len() - p < 10 {
        return Err(VmError::TruncatedInput);
    }
    if read_be_u16(b, p + 8) != 0 {
        return Err(VmError::UnsupportedFeature);
    }
    if b.len() - p < 12 {
        return Err(VmError::TruncatedInput);
    }
    let methods_count = read_be_u16(b, p + 10);
    let (methods, cur) = read_methods(b, p + 12, methods_count, &constant_pool)?;
    if b.len() - cur < 2 {
        return Err(VmError::TruncatedInput);
    }
    let attributes_count = read_be_u16(b, cur);
    let (attributes, _) = read_attributes(b, cur + 2, attributes_count, &constant_pool)?;
    Ok(BytecodeClass {
        magic,
        minor_version,
        major_version,
        constant_pool,
        access_flags,
        this_class,
        this_class_name,
        super_class,
        super_class_name,
        methods,
        attributes,
    })
}

fn push_u16(out: &mut Vec<u8>, v: u16)
    ensures
        final(out)@ == old(out)@ + u16_bytes(v),
{
    out.push((v / 256) as u8);
    out.push((v % 256) as u8);
    assert(final(out)@ =~= old(out)@ + u16_bytes(v));
}

/// Appends the serialized form of one pool entry.
pub fn write_cp_info(e: &ConstantPoolEnum, out: &mut Vec<u8>)
    ensures
        final(out)@ == old(out)@ + cp_entry_bytes(*e),
{
    let ghost start = out@;
    match e {
        ConstantPoolEnum::ConstantUtf8Item(x) => {
            out.push(1u8);
            push_u16(out, x.length);
            let text = x.bytes.as_str().as_bytes();
            let ghost prefix = out@;
            let mut i: usize = 0;
            while i < text.len()
                invariant
                    i <= text@.len(),
                    text@ == encode_utf8(x.bytes@),
                    out@ == prefix + text@.subrange(0, i as int),
                decreases text@.len() - i,
            {
                out.push(text[i]);
                i += 1;
                assert(out@ =~= prefix + text@.subrange(0, i as int));
            }
            assert(text@.subrange(0, i as int) =~= text@);
            assert(out@ =~= start + cp_entry_bytes(*e));
        },
        ConstantPoolEnum::ConstantClassItem(x) => {
            out.push(7u8);
            push_u16(out, x.name_index);
            assert(out@ =~= start + cp_entry_bytes(*e));
        },
        ConstantPoolEnum::ConstantStringItem(x) => {
            out.push(8u8);
            push_u16(out, x.string_index);
            assert(out@ =~= start + cp_entry_bytes(*e));
        },
        ConstantPoolEnum::ConstantFieldrefItem(x) => {
            out.push(9u8);
            push_u16(out, x.class_index);
            push_u16(out, x.name_and_type_index);
            assert(out@ =~= start + cp_entry_bytes(*e));
        },
        ConstantPoolEnum::ConstantMethodrefItem(x) => {
            out.push(10u8);
            push_u16(out, x.class_index);
            push_u16(out, x.name_and_type_index);
            assert(out@ =~= start + cp_entry_bytes(*e));
        },
        ConstantPoolEnum::ConstantNameAndTypeItem(x) => {
            out.push(12u8);
            push_u16(out, x.name_index);
            push_u16(out, x.descriptor_index);
            assert(out@ =~= start + cp_entry_bytes(*e));
        },
    }
}

/// The serialized form of a sequence of pool entries.
pub fn write_constant_pool(pool: &Vec<ConstantPoolEnum>) -> (r: Vec<u8>)
    ensures
        r@ == pool_bytes(pool@),
{
    let mut out: Vec<u8> = Vec::new();
    let mut i: usize = 0;
    while i < pool.len()
        invariant
            i <= pool@.len(),
            out@ == pool_bytes(pool@.subrange(0, i as int)),
        decreases pool@.len() - i,
    {
        write_cp_info(&pool[i], &mut out);
        proof {
            let next = pool@.subrange(0, i + 1);
            assert(next.drop_last() =~= pool@.subrange(0, i as int));
        }
        i += 1;
    }
    assert(pool@.subrange(0, i as int) =~= pool@);
    out
}

proof fn lemma_be16_of_bytes(b: Seq<u8>, pos: int, v: u16)
    requires
        0 <= pos,
        pos + 2 <= b.len(),
        b.subrange(pos, pos + 2) == u16_bytes(v),
    ensures
        be16(b, pos) == v,
{
    assert(b[pos] == b.subrange(pos, pos + 2)[0] && b[pos + 1] == b.subrange(pos, pos + 2)[1]);
    let x = v as int;
    assert((x / 256) * 256 + x % 256 == x && 0 <= x / 256 < 256 && 0 <= x % 256 < 256) by (nonlinear_arith)
        requires
            0 <= x < 65536,
    ;
}

proof fn lemma_entry_reads_back(b: Seq<u8>, pos: int, e: ConstantPoolEnum)
    requires
        0 <= pos,
        e.wf(),
        pos + cp_entry_bytes(e).len() <= b.len(),
        b.subrange(pos, pos + cp_entry_bytes(e).len()) == cp_entry_bytes(e),
    ensures
        cp_entry_end(b, pos) == Ok::<int, VmError>(pos + cp_entry_bytes(e).len()),
{
    let bytes = cp_entry_bytes(e);
    let n = bytes.len() as int;
    assert(b[pos] == b.subrange(pos, pos + n)[0]);
    assert(b.subrange(pos + 1, pos + 3) =~= bytes.subrange(1, 3));
    match e {
        ConstantPoolEnum::ConstantUtf8Item(x) => {
            assert(bytes.subrange(1, 3) =~= u16_bytes(x.length));
            lemma_be16_of_bytes(b, pos + 1, x.length);
            assert(b.subrange(pos + 3, pos + n) =~= b.subrange(pos, pos + n).subrange(3, n));
            assert(bytes.subrange(3, n) =~= encode_utf8(x.bytes@));
            assert(b.subrange(pos + 3, pos + n) =~= encode_utf8(x.bytes@));
            vstd::utf8::encode_utf8_valid_utf8(x.bytes@);
        },
        ConstantPoolEnum::ConstantClassItem(x) => {},
        ConstantPoolEnum::ConstantStringItem(x) => {},
        _ => {},
    }
}

proof fn lemma_pool_reads_back(b: Seq<u8>, pos: int, pool: Seq<ConstantPoolEnum>)
    requires
        0 <= pos,
        pool_wf(pool),
        pos + pool_bytes(pool).len() <= b.len(),
        b.subrange(pos, pos + pool_bytes(pool).len()) == pool_bytes(pool),
    ensures
        pool_end(b, pos, pool.len()) == Ok::<int, VmError>(pos + pool_bytes(pool).len()),
    decreases pool.len(),
{
    if pool.len() > 0 {
        let front = pool.drop_last();
        let n = pool_bytes(front).len() as int;
        let m = cp_entry_bytes(pool.last()).len() as int;
        assert(pool_bytes(pool) == pool_bytes(front) + cp_entry_bytes(pool.last()));
        assert forall|i: int| 0 <= i < front.len() implies #[trigger] front[i].wf() by {
            assert(front[i] == pool[i]);
        }
        let whole = b.subrange(pos, pos + n + m);
        assert(b.subrange(pos, pos + n) =~= whole.subrange(0, n));
        assert(pool_bytes(pool).subrange(0, n) =~= pool_bytes(front));
        assert(b.subrange(pos, pos + n) =~= pool_bytes(front));
        lemma_pool_reads_back(b, pos, front);
        assert(pool[pool.len() - 1].wf());
        assert(b.subrange(pos + n, pos + n + m) =~= whole.subrange(n, n + m));
        assert(pool_bytes(pool).subrange(n, n + m) =~= cp_entry_bytes(pool.last()));
        assert(b.subrange(pos + n, pos + n + m) =~= cp_entry_bytes(pool.last()));
        lemma_entry_reads_back(b, pos + n, pool.last());
        assert(front.len() == (pool.len() - 1) as nat);
    }
}

/// The serialized form of well-formed pool entries reads back: read as that many entries,
/// it is accepted and taken whole. With the contracts of `read_constant_pool` and
/// `write_constant_pool`, entries written and read again serialize to the same bytes, and
/// bytes read and written again are the bytes that were read.
pub proof fn lemma_pool_round_trip(pool: Seq<ConstantPoolEnum>)
    requires
        pool_wf(pool),
    ensures
        pool_end(pool_bytes(pool), 0, pool.len()) == Ok::<int, VmError>(pool_bytes(pool).len() as int),
{
    let b = pool_bytes(pool);
    assert(b.subrange(0, b.len() as int) =~= b);
    lemma_pool_reads_back(b, 0, pool);
}

proof fn lemma_cp_entry_end_prefix(b: Seq<u8>, pos: int, end: int, cut: int)
    requires
        0 <= pos <= cut <= b.len(),
        cp_entry_end(b, pos) == Ok::<int, VmError>(end),
    ensures
        pos < end,
        end <= cut ==> cp_entry_end(b.subrange(0, cut), pos) == Ok::<int, VmError>(end),
        end > cut ==> cp_entry_end(b.subrange(0, cut), pos) == Err::<int, VmError>(VmError::TruncatedInput),
{
    let c = b.subrange(0, cut);
    if pos < cut {
        assert(c[pos] == b[pos]);
    }
    if pos + 3 <= cut {
        assert(c[pos + 1] == b[pos + 1] && c[pos + 2] == b[pos + 2]);
    }
    if b[pos] == 1 && end <= cut {
        assert(c.subrange(pos + 3, end) =~= b.subrange(pos + 3, end));
    }
}

proof fn lemma_pool_end_prefix(b: Seq<u8>, pos: int, count: nat, cut: int, end: int)
    requires
        0 <= pos <= cut <= b.len(),
        pool_end(b, pos, count) == Ok::<int, VmError>(end),
    ensures
        pos <= end,
        end <= cut ==> pool_end(b.subrange(0, cut), pos, count) == Ok::<int, VmError>(end),
        end > cut ==> pool_end(b.subrange(0, cut), pos, count) == Err::<int, VmError>(VmError::TruncatedInput),
    decreases count,
{
    if count > 0 {
        let k = (count - 1) as nat;
        let prev = pool_end(b, pos, k)->Ok_0;
        lemma_pool_end_prefix(b, pos, k, cut, prev);
        if prev <= cut {
            lemma_cp_entry_end_prefix(b, prev, end, cut);
        } else {
            assert(cp_entry_end(b, prev) == Ok::<int, VmError>(end));
            lemma_cp_entry_end_prefix(b, prev, end, b.len() as int);
        }
    }
}

/// A class file cut short anywhere before the end of its constant pool reads as truncated
/// input: `parse` then fails with `TruncatedInput`, whatever the entries read before the cut.
pub proof fn lemma_truncated_pool(b: Seq<u8>, cut: int)
    requires
        header_end(b) is Ok,
        0 <= cut < header_end(b)->Ok_0,
    ensures
        header_end(b.subrange(0, cut)) == Err::<int, VmError>(VmError::TruncatedInput),
{
    let c = b.subrange(0, cut);
    if cut >= 4 {
        assert(c[0] == b[0] && c[1] == b[1] && c[2] == b[2] && c[3] == b[3]);
    }
    if cut >= 10 {
        assert(c[8] == b[8] && c[9] == b[9]);
        let end = header_end(b)->Ok_0;
        lemma_pool_end_prefix(b, 10, (be16(b, 8) - 1) as nat, cut, end);
    }
}

/// Once both class names resolve, a nonzero interfaces count makes the class unsupported,
/// whatever bytes follow it: fields, methods and attributes are never read.
pub proof fn lemma_interfaces_unsupported(pre: Seq<u8>, sfx: Seq<u8>, p: int, pool: Seq<ConstantPoolEnum>)
    requires
        0 <= p,
        p + 8 <= pre.len(),
        spec_class_name(pool, be16(pre, p + 2) as int) is Ok,
        spec_class_name(pool, be16(pre, p + 4) as int) is Ok,
        be16(pre, p + 6) != 0,
    ensures
        fields_end(pre + sfx, p, pool) == Err::<int, VmError>(VmError::UnsupportedFeature),
{
    let b = pre + sfx;
    assert(b[p + 2] == pre[p + 2] && b[p + 3] == pre[p + 3]);
    assert(b[p + 4] == pre[p + 4] && b[p + 5] == pre[p + 5]);
    assert(b[p + 6] == pre[p + 6] && b[p + 7] == pre[p + 7]);
}

} // verus!
