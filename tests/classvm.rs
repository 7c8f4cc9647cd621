use classvm::class::{
    resolve, AttributeEnum, ConstantClassClass, ConstantPoolEnum, ConstantUtf8Class,
};
use classvm::error::VmError;
use classvm::operation::{as_u2, execute, execute_code};
use classvm::read_class::{parse, read_constant_pool, read_cp_info, write_constant_pool, CLASS_MAGIC};

fn u16be(out: &mut Vec<u8>, v: u16) {
    out.push((v >> 8) as u8);
    out.push((v & 0xff) as u8);
}

fn u32be(out: &mut Vec<u8>, v: u32) {
    out.extend_from_slice(&v.to_be_bytes());
}

fn utf8(out: &mut Vec<u8>, s: &str) {
    out.push(1);
    u16be(out, s.len() as u16);
    out.extend_from_slice(s.as_bytes());
}

fn two(out: &mut Vec<u8>, tag: u8, a: u16, b: u16) {
    out.push(tag);
    u16be(out, a);
    u16be(out, b);
}

fn one(out: &mut Vec<u8>, tag: u8, a: u16) {
    out.push(tag);
    u16be(out, a);
}

/// The entries of a small pool, serialized; its count field is 25.
fn pool_bytes() -> Vec<u8> {
    let mut p = Vec::new();
    utf8(&mut p, "java/lang/System"); // 1
    one(&mut p, 7, 1); // 2
    utf8(&mut p, "out"); // 3
    utf8(&mut p, "Ljava/io/PrintStream;"); // 4
    two(&mut p, 12, 3, 4); // 5
    two(&mut p, 9, 2, 5); // 6
    utf8(&mut p, "Hello, World!"); // 7
    one(&mut p, 8, 7); // 8
    utf8(&mut p, "java/io/PrintStream"); // 9
    one(&mut p, 7, 9); // 10
    utf8(&mut p, "println"); // 11
    utf8(&mut p, "(Ljava/lang/String;)V"); // 12
    two(&mut p, 12, 11, 12); // 13
    two(&mut p, 10, 10, 13); // 14
    utf8(&mut p, "Hello"); // 15
    one(&mut p, 7, 15); // 16
    utf8(&mut p, "java/lang/Object"); // 17
    one(&mut p, 7, 17); // 18
    utf8(&mut p, "main"); // 19
    utf8(&mut p, "([Ljava/lang/String;)V"); // 20
    utf8(&mut p, "Code"); // 21
    utf8(&mut p, "toString"); // 22
    two(&mut p, 12, 22, 12); // 23
    two(&mut p, 10, 10, 23); // 24
    utf8(&mut p, "SourceFile"); // 25
    utf8(&mut p, "Hello.java"); // 26
    utf8(&mut p, "LineNumberTable"); // 27
    utf8(&mut p, "StackMapTable"); // 28
    utf8(&mut p, "Unknown"); // 29
    p
}

const POOL_COUNT: u16 = 30;

fn code_attribute(code: &[u8], exception_table_length: u16, nested: &[u8], nested_count: u16) -> Vec<u8> {
    let mut a = Vec::new();
    u16be(&mut a, 21);
    u32be(&mut a, (12 + code.len() + nested.len()) as u32);
    u16be(&mut a, 2);
    u16be(&mut a, 1);
    u32be(&mut a, code.len() as u32);
    a.extend_from_slice(code);
    u16be(&mut a, exception_table_length);
    u16be(&mut a, nested_count);
    a.extend_from_slice(nested);
    a
}

struct ClassParts {
    magic: u32,
    interfaces: u16,
    fields: u16,
    method_name: u16,
    method_attrs: Vec<u8>,
    method_attr_count: u16,
    class_attrs: Vec<u8>,
    class_attr_count: u16,
}

fn hello_code() -> Vec<u8> {
    vec![178, 0, 6, 18, 8, 182, 0, 14, 177]
}

fn hello_parts() -> ClassParts {
    ClassParts {
        magic: CLASS_MAGIC,
        interfaces: 0,
        fields: 0,
        method_name: 19,
        method_attrs: code_attribute(&hello_code(), 0, &[], 0),
        method_attr_count: 1,
        class_attrs: Vec::new(),
        class_attr_count: 0,
    }
}

fn class_bytes(parts: &ClassParts) -> Vec<u8> {
    let mut c = Vec::new();
    u32be(&mut c, parts.magic);
    u16be(&mut c, 3);
    u16be(&mut c, 52);
    u16be(&mut c, POOL_COUNT);
    c.extend_from_slice(&pool_bytes());
    u16be(&mut c, 0x21);
    u16be(&mut c, 16);
    u16be(&mut c, 18);
    u16be(&mut c, parts.interfaces);
    u16be(&mut c, parts.fields);
    u16be(&mut c, 1);
    u16be(&mut c, 9);
    u16be(&mut c, parts.method_name);
    u16be(&mut c, 20);
    u16be(&mut c, parts.method_attr_count);
    c.extend_from_slice(&parts.method_attrs);
    u16be(&mut c, parts.class_attr_count);
    c.extend_from_slice(&parts.class_attrs);
    c
}

fn hello_pool() -> Vec<ConstantPoolEnum> {
    parse(&class_bytes(&hello_parts())).ok().unwrap().constant_pool
}

fn utf8_text(e: &ConstantPoolEnum) -> String {
    match e {
        ConstantPoolEnum::ConstantUtf8Item(x) => x.bytes.clone(),
        _ => panic!("not a Utf8 entry"),
    }
}

#[test]
fn hello_world_prints_one_line() {
    let class = parse(&class_bytes(&hello_parts())).ok().unwrap();
    let run = execute(class);
    assert_eq!(run.status, Ok(()));
    assert_eq!(run.output, vec!["Hello, World!".to_string()]);
}

#[test]
fn parse_reads_header_fields() {
    let class = parse(&class_bytes(&hello_parts())).ok().unwrap();
    assert_eq!(class.magic, 0xCAFE_BABE);
    assert_eq!(class.minor_version, 3);
    assert_eq!(class.major_version, 52);
    assert_eq!(class.access_flags, 0x21);
    assert_eq!(class.constant_pool.len(), 29);
    assert_eq!(class.this_class, 16);
    assert_eq!(class.this_class_name, "Hello");
    assert_eq!(class.super_class_name, "java/lang/Object");
    assert_eq!(class.methods.len(), 1);
    assert_eq!(class.methods[0].name, "main");
    assert_eq!(class.methods[0].descriptor, "([Ljava/lang/String;)V");
    assert_eq!(utf8_text(&class.constant_pool[6]), "Hello, World!");
    let code = class.methods[0].get_code().ok().unwrap();
    assert_eq!(*code, hello_code());
}

#[test]
fn iload_is_unimplemented() {
    let pool = hello_pool();
    let code = vec![178, 0, 6, 21, 0, 18, 8, 182, 0, 14, 177];
    let run = execute_code(&code, &pool);
    assert_eq!(run.status, Err(VmError::UnimplementedOpcode));
    assert!(run.output.is_empty());
}

#[test]
fn other_unimplemented_opcodes() {
    let pool = hello_pool();
    for code in [vec![6u8], vec![54u8, 1], vec![172u8]] {
        assert_eq!(execute_code(&code, &pool).status, Err(VmError::UnimplementedOpcode));
    }
}

#[test]
fn invoking_to_string_is_unsupported() {
    let pool = hello_pool();
    let code = vec![178, 0, 6, 18, 8, 182, 0, 24, 177];
    let run = execute_code(&code, &pool);
    assert_eq!(run.status, Err(VmError::UnsupportedOperation));
    assert!(run.output.is_empty());
}

#[test]
fn unknown_opcode_fails() {
    let pool = hello_pool();
    let run = execute_code(&vec![18, 8, 0xfe], &pool);
    assert_eq!(run.status, Err(VmError::UnknownOpcode));
}

#[test]
fn truncated_instruction_fails() {
    let pool = hello_pool();
    assert_eq!(execute_code(&vec![178, 0], &pool).status, Err(VmError::TruncatedInput));
}

#[test]
fn println_without_receiver_underflows() {
    let pool = hello_pool();
    let run = execute_code(&vec![18, 8, 182, 0, 14], &pool);
    assert_eq!(run.status, Err(VmError::StackUnderflow));
}

#[test]
fn lines_before_a_failure_are_kept() {
    let pool = hello_pool();
    let code = vec![178, 0, 6, 18, 8, 182, 0, 14, 21, 0];
    let run = execute_code(&code, &pool);
    assert_eq!(run.status, Err(VmError::UnimplementedOpcode));
    assert_eq!(run.output, vec!["Hello, World!".to_string()]);
}

#[test]
fn running_off_the_end_fails() {
    let pool = hello_pool();
    let run = execute_code(&vec![178, 0, 6, 18, 8, 182, 0, 14], &pool);
    assert_eq!(run.status, Err(VmError::MissingReturn));
    assert_eq!(run.output, vec!["Hello, World!".to_string()]);
    assert_eq!(execute_code(&vec![], &pool).status, Err(VmError::MissingReturn));
    assert_eq!(execute_code(&vec![18, 8], &pool).status, Err(VmError::MissingReturn));
}

#[test]
fn return_stops_before_later_instructions() {
    let pool = hello_pool();
    let run = execute_code(&vec![177, 0xfe], &pool);
    assert_eq!(run.status, Ok(()));
}

#[test]
fn ldc_of_a_non_string_entry_is_malformed() {
    let pool = hello_pool();
    assert_eq!(execute_code(&vec![18, 7], &pool).status, Err(VmError::MalformedConstantPool));
    assert_eq!(execute_code(&vec![18, 0], &pool).status, Err(VmError::IndexOutOfRange));
    assert_eq!(execute_code(&vec![178, 0, 200], &pool).status, Err(VmError::IndexOutOfRange));
}

#[test]
fn getstatic_through_a_method_reference() {
    let pool = hello_pool();
    let run = execute_code(&vec![178, 0, 14, 18, 8, 182, 0, 14, 177], &pool);
    assert_eq!(run.status, Ok(()));
    assert_eq!(run.output, vec!["Hello, World!".to_string()]);
    let run = execute_code(&vec![178, 0, 6, 178, 0, 14, 182, 0, 14, 177], &pool);
    assert_eq!(run.output, vec!["java/io/PrintStream.println".to_string()]);
}

#[test]
fn as_u2_combines_big_endian() {
    assert_eq!(as_u2(1, 2), 258);
    assert_eq!(as_u2(0, 6), 6);
    assert_eq!(as_u2(0xff, 0xff), 65535);
    assert_eq!(as_u2(0x12, 0x00), 0x1200);
}

#[test]
fn bad_magic_is_rejected() {
    let mut parts = hello_parts();
    parts.magic = 0xCAFE_BABF;
    assert_eq!(parse(&class_bytes(&parts)).err(), Some(VmError::BadMagic));
    assert_eq!(parse(&[0xCA, 0xFE, 0xBA, 0xBE + 1]).err(), Some(VmError::BadMagic));
    assert_eq!(parse(&[0xCA, 0xFE, 0xBA]).err(), Some(VmError::TruncatedInput));
}

#[test]
fn interfaces_are_unsupported() {
    let mut parts = hello_parts();
    parts.interfaces = 1;
    assert_eq!(parse(&class_bytes(&parts)).err(), Some(VmError::UnsupportedFeature));
}

#[test]
fn fields_are_unsupported() {
    let mut parts = hello_parts();
    parts.fields = 2;
    assert_eq!(parse(&class_bytes(&parts)).err(), Some(VmError::UnsupportedFeature));
}

#[test]
fn truncated_pool_is_reported() {
    let bytes = class_bytes(&hello_parts());
    for cut in [10usize, 11, 12, 30, 60] {
        assert_eq!(parse(&bytes[..cut]).err(), Some(VmError::TruncatedInput));
    }
    assert_eq!(parse(&bytes[..9]).err(), Some(VmError::TruncatedInput));
}

#[test]
fn truncated_after_pool_is_reported() {
    let bytes = class_bytes(&hello_parts());
    assert_eq!(parse(&bytes[..bytes.len() - 1]).err(), Some(VmError::TruncatedInput));
}

#[test]
fn unknown_pool_tag_is_malformed() {
    let bytes = vec![2u8, 0, 0];
    assert_eq!(read_cp_info(&bytes, 0).err(), Some(VmError::MalformedConstantPool));
}

#[test]
fn invalid_utf8_is_malformed() {
    let bytes = vec![1u8, 0, 2, 0xc3, 0x28];
    assert_eq!(read_cp_info(&bytes, 0).err(), Some(VmError::MalformedConstantPool));
}

#[test]
fn multibyte_utf8_is_decoded() {
    let bytes = vec![1u8, 0, 3, b'a', 0xc3, 0xa9, 7];
    let (entry, end) = read_cp_info(&bytes, 0).ok().unwrap();
    assert_eq!(end, 6);
    assert_eq!(utf8_text(&entry), "a\u{e9}");
}

#[test]
fn zero_pool_count_is_malformed() {
    let mut bytes = class_bytes(&hello_parts());
    bytes[8] = 0;
    bytes[9] = 0;
    assert_eq!(parse(&bytes).err(), Some(VmError::MalformedConstantPool));
}

#[test]
fn resolve_is_one_based() {
    let pool = hello_pool();
    let n = pool.len() as u16;
    assert_eq!(resolve(&pool, 0).err(), Some(VmError::IndexOutOfRange));
    assert_eq!(resolve(&pool, n + 1).err(), Some(VmError::IndexOutOfRange));
    assert_eq!(utf8_text(resolve(&pool, 1).ok().unwrap()), "java/lang/System");
    assert_eq!(utf8_text(resolve(&pool, n).ok().unwrap()), "Unknown");
    match resolve(&pool, 2).ok().unwrap() {
        ConstantPoolEnum::ConstantClassItem(c) => assert_eq!(c.name_index, 1),
        _ => panic!("entry 2 is a class reference"),
    }
}

#[test]
fn pool_round_trip() {
    let bytes = pool_bytes();
    let (pool, end) = read_constant_pool(&bytes, 0, POOL_COUNT - 1).ok().unwrap();
    assert_eq!(end, bytes.len());
    assert_eq!(write_constant_pool(&pool), bytes);
}

#[test]
fn writer_serializes_entries() {
    let pool = vec![
        ConstantPoolEnum::ConstantUtf8Item(ConstantUtf8Class { length: 2, bytes: "hi".to_string() }),
        ConstantPoolEnum::ConstantClassItem(ConstantClassClass { name_index: 0x0102 }),
    ];
    assert_eq!(write_constant_pool(&pool), vec![1, 0, 2, b'h', b'i', 7, 1, 2]);
}

#[test]
fn missing_main_is_no_entry_point() {
    let mut parts = hello_parts();
    parts.method_name = 11;
    let class = parse(&class_bytes(&parts)).ok().unwrap();
    assert!(class.get_main_method().is_err());
    let run = execute(class);
    assert_eq!(run.status, Err(VmError::NoEntryPoint));
    assert!(run.output.is_empty());
}

#[test]
fn method_without_code_cannot_run() {
    let mut parts = hello_parts();
    parts.method_attrs = Vec::new();
    parts.method_attr_count = 0;
    let class = parse(&class_bytes(&parts)).ok().unwrap();
    assert_eq!(execute(class).status, Err(VmError::MissingCode));
}

#[test]
fn exception_table_is_unsupported() {
    let mut parts = hello_parts();
    parts.method_attrs = code_attribute(&hello_code(), 1, &[], 0);
    assert_eq!(parse(&class_bytes(&parts)).err(), Some(VmError::UnsupportedFeature));
}

#[test]
fn exception_table_wins_over_declared_length() {
    let mut parts = hello_parts();
    let mut a = code_attribute(&hello_code(), 1, &[], 0);
    a[2] = 0x7f;
    parts.method_attrs = a;
    assert_eq!(parse(&class_bytes(&parts)).err(), Some(VmError::UnsupportedFeature));
}

#[test]
fn code_length_mismatch_is_malformed() {
    let mut parts = hello_parts();
    let mut a = code_attribute(&hello_code(), 0, &[], 0);
    a[5] += 1;
    parts.method_attrs = a;
    parts.class_attrs = vec![0];
    assert_eq!(parse(&class_bytes(&parts)).err(), Some(VmError::MalformedAttribute));
}

#[test]
fn unknown_attribute_is_rejected() {
    let mut parts = hello_parts();
    let mut a = Vec::new();
    u16be(&mut a, 29);
    u32be(&mut a, 0);
    parts.class_attrs = a;
    parts.class_attr_count = 1;
    assert_eq!(parse(&class_bytes(&parts)).err(), Some(VmError::UnknownAttribute));
}

#[test]
fn attribute_length_must_match_body() {
    let mut parts = hello_parts();
    let mut a = Vec::new();
    u16be(&mut a, 25);
    u32be(&mut a, 3);
    u16be(&mut a, 26);
    a.push(0);
    parts.class_attrs = a;
    parts.class_attr_count = 1;
    assert_eq!(parse(&class_bytes(&parts)).err(), Some(VmError::MalformedAttribute));
}

#[test]
fn nested_and_top_level_attributes_are_read() {
    let mut nested = Vec::new();
    u16be(&mut nested, 27);
    u32be(&mut nested, 2 + 8);
    u16be(&mut nested, 2);
    u16be(&mut nested, 0);
    u16be(&mut nested, 1);
    u16be(&mut nested, 8);
    u16be(&mut nested, 2);
    u16be(&mut nested, 28);
    u32be(&mut nested, 3);
    nested.extend_from_slice(&[1, 2, 3]);
    let mut parts = hello_parts();
    parts.method_attrs = code_attribute(&hello_code(), 0, &nested, 2);
    let mut top = Vec::new();
    u16be(&mut top, 25);
    u32be(&mut top, 2);
    u16be(&mut top, 26);
    parts.class_attrs = top;
    parts.class_attr_count = 1;
    let class = parse(&class_bytes(&parts)).ok().unwrap();
    match &class.attributes[0] {
        AttributeEnum::SourceFileItem(f) => {
            assert_eq!(f.sourcefile_index, 26);
            assert_eq!(f.attribute_name, "SourceFile");
        },
        _ => panic!("expected a SourceFile attribute"),
    }
    match &class.methods[0].attributes[0] {
        AttributeEnum::CodeItem(c) => {
            assert_eq!(c.max_stack, 2);
            assert_eq!(c.max_locals, 1);
            assert_eq!(c.attributes.len(), 2);
            match &c.attributes[0] {
                AttributeEnum::LineNumberTableItem(t) => {
                    assert_eq!(t.line_number_table.len(), 2);
                    assert_eq!(t.line_number_table[1].start_pc, 8);
                    assert_eq!(t.line_number_table[1].line_number, 2);
                },
                _ => panic!("expected a LineNumberTable attribute"),
            }
            match &c.attributes[1] {
                AttributeEnum::StackMapTableItem(s) => assert_eq!(s.attribute_length, 3),
                _ => panic!("expected a StackMapTable attribute"),
            }
        },
        _ => panic!("expected a Code attribute"),
    }
    assert_eq!(execute(class).output, vec!["Hello, World!".to_string()]);
}

#[test]
fn error_messages_are_distinct() {
    assert_ne!(VmError::BadMagic.message(), VmError::TruncatedInput.message());
    assert_eq!(VmError::NoEntryPoint.message(), "no method named main");
    assert_eq!(VmError::MissingReturn.message(), "code ended without a return");
}
