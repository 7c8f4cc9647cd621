use vstd::prelude::*;
use vstd::utf8::encode_utf8;
use crate::error::VmError;

verus! {

/// A class file as read from its bytes.
pub struct BytecodeClass {
    pub magic: u32,
    pub minor_version: u16,
    pub major_version: u16,
    pub constant_pool: Vec<ConstantPoolEnum>,
    pub access_flags: u16,
    pub this_class: u16,
    pub this_class_name: String,
    pub super_class: u16,
    pub super_class_name: String,
    pub methods: Vec<MethodInfo>,
    pub attributes: Vec<AttributeEnum>,
}

/// One entry of the constant pool.
#[derive(Clone)]
pub enum ConstantPoolEnum {
    ConstantClassItem(ConstantClassClass),
    ConstantStringItem(ConstantStringClass),
    ConstantUtf8Item(ConstantUtf8Class),
    ConstantFieldrefItem(ConstantFieldrefClass),
    ConstantMethodrefItem(ConstantMethodrefClass),
    ConstantNameAndTypeItem(ConstantNameAndTypeClass),
}

/// Text of the pool; `length` is the size of its UTF-8 encoding.
#[derive(Clone)]
pub struct ConstantUtf8Class {
    pub length: u16,
    pub bytes: String,
}

#[derive(Clone, Copy)]
pub struct ConstantClassClass {
    pub name_index: u16,
}

#[derive(Clone, Copy)]
pub struct ConstantStringClass {
    pub string_index: u16,
}

#[derive(Clone, Copy)]
pub struct ConstantFieldrefClass {
    pub class_index: u16,
    pub name_and_type_index: u16,
}

#[derive(Clone, Copy)]
pub struct ConstantMethodrefClass {
    pub class_index: u16,
    pub name_and_type_index: u16,
}

#[derive(Clone, Copy)]
pub struct ConstantNameAndTypeClass {
    pub name_index: u16,
    pub descriptor_index: u16,
}

pub struct MethodInfo {
    pub access_flags: u16,
    pub name_index: u16,
    pub name: String,
    pub descriptor_index: u16,
    pub descriptor: String,
    pub attributes_count: u16,
    pub attributes: Vec<AttributeEnum>,
}

pub enum AttributeEnum {
    CodeItem(CodeClass),
    LineNumberTableItem(LineNumberTableClass),
    StackMapTableItem(StackMapTableClass),
    SourceFileItem(SourceFileClass),
}

/// Exception tables are not modelled; only an empty one is accepted.
pub struct ExceptionTable {}

pub struct CodeClass {
    pub attribute_name_index: u16,
    pub attribute_name: String,
    pub attribute_length: u32,
    pub max_stack: u16,
    pub max_locals: u16,
    pub code_length: u32,
    pub code: Vec<u8>,
    pub exception_table_length: u16,
    pub exception_table: ExceptionTable,
    pub attributes_count: u16,
    pub attributes: Vec<AttributeEnum>,
}

#[derive(Clone, Copy)]
pub struct LineNumberTableElem {
    pub start_pc: u16,
    pub line_number: u16,
}

pub struct LineNumberTableClass {
    pub attribute_name_index: u16,
    pub attribute_name: String,
    pub attribute_length: u32,
    pub line_number_table_length: u16,
    pub line_number_table: Vec<LineNumberTableElem>,
}

pub struct StackMapTableClass {
    pub attribute_name_index: u16,
    pub attribute_name: String,
    pub attribute_length: u32,
}

pub struct SourceFileClass {
    pub attribute_name_index: u16,
    pub attribute_name: String,
    pub sourcefile_index: u16,
}

impl ConstantPoolEnum {
    /// A Utf8 entry's declared length is that of the encoding of its text.
    pub open spec fn wf(&self) -> bool {
        match self {
            ConstantPoolEnum::ConstantUtf8Item(x) => x.length as int == encode_utf8(x.bytes@).len(),
            _ => true,
        }
    }
}

/// The entry that the 1-based index `index` designates.
pub open spec fn spec_resolve(pool: Seq<ConstantPoolEnum>, index: int) -> Result<ConstantPoolEnum, VmError> {
    if 1 <= index <= pool.len() {
        Ok(pool[index - 1])
    } else {
        Err(VmError::IndexOutOfRange)
    }
}

/// The text of the Utf8 entry at `index`.
pub open spec fn spec_utf8(pool: Seq<ConstantPoolEnum>, index: int) -> Result<Seq<char>, VmError> {
    match spec_resolve(pool, index) {
        Ok(ConstantPoolEnum::ConstantUtf8Item(x)) => Ok(x.bytes@),
        Ok(_) => Err(VmError::MalformedConstantPool),
        Err(e) => Err(e),
    }
}

/// The name of the class that the Class entry at `index` refers to.
pub open spec fn spec_class_name(pool: Seq<ConstantPoolEnum>, index: int) -> Result<Seq<char>, VmError> {
    match spec_resolve(pool, index) {
        Ok(ConstantPoolEnum::ConstantClassItem(x)) => spec_utf8(pool, x.name_index as int),
        Ok(_) => Err(VmError::MalformedConstantPool),
        Err(e) => Err(e),
    }
}

/// The member name of the NameAndType entry at `index`.
pub open spec fn spec_member_name(pool: Seq<ConstantPoolEnum>, index: int) -> Result<Seq<char>, VmError> {
    match spec_resolve(pool, index) {
        Ok(ConstantPoolEnum::ConstantNameAndTypeItem(x)) => spec_utf8(pool, x.name_index as int),
        Ok(_) => Err(VmError::MalformedConstantPool),
        Err(e) => Err(e),
    }
}

/// The class index and name-and-type index of the Fieldref or Methodref entry at `index`.
pub open spec fn spec_member_ref(pool: Seq<ConstantPoolEnum>, index: int) -> Result<(u16, u16), VmError> {
    match spec_resolve(pool, index) {
        Ok(ConstantPoolEnum::ConstantFieldrefItem(x)) => Ok((x.class_index, x.name_and_type_index)),
        Ok(ConstantPoolEnum::ConstantMethodrefItem(x)) => Ok((x.class_index, x.name_and_type_index)),
        Ok(_) => Err(VmError::MalformedConstantPool),
        Err(e) => Err(e),
    }
}

/// Looks up a 1-based index in the constant pool.
pub fn resolve(pool: &Vec<ConstantPoolEnum>, index: u16) -> (r: Result<&ConstantPoolEnum, VmError>)
    ensures
        match r {
            Ok(e) => spec_resolve(pool@, index as int) == Ok::<ConstantPoolEnum, VmError>(*e),
            Err(err) => spec_resolve(pool@, index as int) == Err::<ConstantPoolEnum, VmError>(err),
        },
        1 <= index <= pool@.len() ==> (r matches Ok(e) && *e == pool@[index - 1]),
        index == 0 || index > pool@.len() ==> r == Err::<&ConstantPoolEnum, VmError>(VmError::IndexOutOfRange),
{
    if index == 0 || index as usize > pool.len() {
        Err(VmError::IndexOutOfRange)
    } else {
        Ok(&pool[index as usize - 1])
    }
}

/// The text of the Utf8 entry at `index`.
pub fn resolve_utf8(pool: &Vec<ConstantPoolEnum>, index: u16) -> (r: Result<String, VmError>)
    ensures
        match r {
            Ok(s) => spec_utf8(pool@, index as int) == Ok::<Seq<char>, VmError>(s@),
            Err(err) => spec_utf8(pool@, index as int) == Err::<Seq<char>, VmError>(err),
        },
{
    match resolve(pool, index)? {
        ConstantPoolEnum::ConstantUtf8Item(x) => Ok(x.bytes.clone()),
        _ => Err(VmError::MalformedConstantPool),
    }
}

/// The name of the class that the Class entry at `index` refers to.
pub fn resolve_class_name(pool: &Vec<ConstantPoolEnum>, index: u16) -> (r: Result<String, VmError>)
    ensures
        match r {
            Ok(s) => spec_class_name(pool@, index as int) == Ok::<Seq<char>, VmError>(s@),
            Err(err) => spec_class_name(pool@, index as int) == Err::<Seq<char>, VmError>(err),
        },
{
    match resolve(pool, index)? {
        ConstantPoolEnum::ConstantClassItem(x) => resolve_utf8(pool, x.name_index),
        _ => Err(VmError::MalformedConstantPool),
    }
}

/// The member name of the NameAndType entry at `index`.
pub fn resolve_member_name(pool: &Vec<ConstantPoolEnum>, index: u16) -> (r: Result<String, VmError>)
    ensures
        match r {
            Ok(s) => spec_member_name(pool@, index as int) == Ok::<Seq<char>, VmError>(s@),
            Err(err) => spec_member_name(pool@, index as int) == Err::<Seq<char>, VmError>(err),
        },
{
    match resolve(pool, index)? {
        ConstantPoolEnum::ConstantNameAndTypeItem(x) => resolve_utf8(pool, x.name_index),
        _ => Err(VmError::MalformedConstantPool),
    }
}

/// The class index and name-and-type index of the Fieldref or Methodref entry at `index`.
pub fn resolve_member_ref(pool: &Vec<ConstantPoolEnum>, index: u16) -> (r: Result<(u16, u16), VmError>)
    ensures
        r == spec_member_ref(pool@, index as int),
{
    match resolve(pool, index)? {
        ConstantPoolEnum::ConstantFieldrefItem(x) => Ok((x.class_index, x.name_and_type_index)),
        ConstantPoolEnum::ConstantMethodrefItem(x) => Ok((x.class_index, x.name_and_type_index)),
        _ => Err(VmError::MalformedConstantPool),
    }
}

/// `i` is the position of the first method named `main`.
pub open spec fn is_first_main(ms: Seq<MethodInfo>, i: int) -> bool {
    &&& 0 <= i < ms.len()
    &&& ms[i].name@ == "main"@
    &&& forall|j: int| 0 <= j < i ==> ms[j].name@ != "main"@
}

/// The position of the first method named `main`, if there is one.
pub open spec fn spec_main_index(ms: Seq<MethodInfo>) -> Option<int> {
    if exists|i: int| is_first_main(ms, i) {
        Some(choose|i: int| is_first_main(ms, i))
    } else {
        None
    }
}

/// `i` is the position of the first Code attribute.
pub open spec fn is_first_code(attrs: Seq<AttributeEnum>, i: int) -> bool {
    &&& 0 <= i < attrs.len()
    &&& attrs[i] is CodeItem
    &&& forall|j: int| 0 <= j < i ==> !(attrs[j] is CodeItem)
}

/// The instructions of the first Code attribute, if there is one.
pub open spec fn spec_code_of(attrs: Seq<AttributeEnum>) -> Option<Seq<u8>> {
    if exists|i: int| is_first_code(attrs, i) {
        Some(attrs[choose|i: int| is_first_code(attrs, i)]->CodeItem_0.code@)
    } else {
        None
    }
}

impl BytecodeClass {
    /// The first method named `main`.
    pub fn get_main_method(&self) -> (r: Result<&MethodInfo, VmError>)
        ensures
            match r {
                Ok(m) => spec_main_index(self.methods@) matches Some(i) && *m == self.methods@[i],
                Err(e) => e == VmError::NoEntryPoint && spec_main_index(self.methods@) is None,
            },
    {
        let main_name = "main".to_owned();
        let mut i: usize = 0;
        while i < self.methods.len()
            invariant
                i <= self.methods@.len(),
                main_name@ == "main"@,
                forall|j: int| 0 <= j < i ==> self.methods@[j].name@ != "main"@,
            decreases self.methods@.len() - i,
        {
            if self.methods[i].name == main_name {
                proof {
                    assert(is_first_main(self.methods@, i as int));
                    let k = choose|k: int| is_first_main(self.methods@, k);
                    assert(k == i);
                }
                return Ok(&self.methods[i]);
            }
            i += 1;
        }
        Err(VmError::NoEntryPoint)
    }
}

impl MethodInfo {
    /// The instructions of the method's first Code attribute.
    pub fn get_code(&self) -> (r: Result<&Vec<u8>, VmError>)
        ensures
            match r {
                Ok(c) => spec_code_of(self.attributes@) == Some(c@),
                Err(e) => e == VmError::MissingCode && spec_code_of(self.attributes@) is None,
            },
    {
        let mut i: usize = 0;
        while i < self.attributes.len()
            invariant
                i <= self.attributes@.len(),
                forall|j: int| 0 <= j < i ==> !(self.attributes@[j] is CodeItem),
            decreases self.attributes@.len() - i,
        {
            if let AttributeEnum::CodeItem(code_class) = &self.attributes[i] {
                proof {
                    assert(is_first_code(self.attributes@, i as int));
                    let k = choose|k: int| is_first_code(self.attributes@, k);
                    assert(k == i);
                }
                return Ok(&code_class.code);
            }
            i += 1;
        }
        Err(VmError::MissingCode)
    }
}

} // verus!
