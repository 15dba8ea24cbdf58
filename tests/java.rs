use wie::{
    decimal_of, get_class_proto, JavaError, JavaValue, Jvm, NativeMethod, StringBuffer, FONT_HEIGHT, REPORTED_MEMORY,
};

fn utf16(s: &str) -> Vec<u16> {
    s.encode_utf16().collect()
}

fn object(v: JavaValue) -> usize {
    match v {
        JavaValue::Object(Some(h)) => h,
        other => panic!("not an object: {:?}", other),
    }
}

fn buffer_array(jvm: &Jvm, sb: usize) -> usize {
    object(jvm.get_field(sb, "value", "[C").unwrap())
}

const APPEND_STRING: &str = "(Ljava/lang/String;)Ljava/lang/StringBuffer;";

#[test]
fn string_buffer_appends_string_and_int() {
    let mut jvm = Jvm::new(240, 320);
    let sb = jvm.instantiate("java/lang/StringBuffer", "()V", &[]).unwrap();
    let ab = jvm.new_string(&utf16("ab")).unwrap();
    let r = jvm.call_method(sb, "append", APPEND_STRING, &[JavaValue::Object(Some(ab))]).unwrap();
    assert_eq!(r, JavaValue::Object(Some(sb)));
    jvm.call_method(sb, "append", "(I)Ljava/lang/StringBuffer;", &[JavaValue::Int(42)]).unwrap();
    let s = object(jvm.call_method(sb, "toString", "()Ljava/lang/String;", &[]).unwrap());
    assert_eq!(jvm.string_chars(s).unwrap(), utf16("ab42"));
    assert_eq!(jvm.array_length(buffer_array(&jvm, sb)).unwrap(), 16);
}

#[test]
fn string_buffer_grows_by_doubling() {
    let mut jvm = Jvm::new(240, 320);
    let sb = jvm.instantiate("java/lang/StringBuffer", "()V", &[]).unwrap();
    let mut expected = String::new();
    for (i, piece) in ["hello", ", ", "world", "! this is longer than sixteen", "x"].iter().enumerate() {
        let s = jvm.new_string(&utf16(piece)).unwrap();
        jvm.call_method(sb, "append", APPEND_STRING, &[JavaValue::Object(Some(s))]).unwrap();
        expected.push_str(piece);
        let cap = jvm.array_length(buffer_array(&jvm, sb)).unwrap();
        assert!(cap.is_power_of_two() && cap >= 16 && cap >= expected.len(), "step {}: {}", i, cap);
    }
    assert_eq!(jvm.array_length(buffer_array(&jvm, sb)).unwrap(), 64);
    jvm.call_method(sb, "append", "(C)Ljava/lang/StringBuffer;", &[JavaValue::Char(0xac00)]).unwrap();
    jvm.call_method(sb, "append", "(J)Ljava/lang/StringBuffer;", &[JavaValue::Long(-1234567890123)]).unwrap();
    expected.push('\u{ac00}');
    expected.push_str("-1234567890123");
    let s = object(jvm.call_method(sb, "toString", "()Ljava/lang/String;", &[]).unwrap());
    assert_eq!(jvm.string_chars(s).unwrap(), utf16(&expected));
}

#[test]
fn string_buffer_from_string_shares_array() {
    let mut jvm = Jvm::new(240, 320);
    let src = jvm.new_string(&utf16("abc")).unwrap();
    let sb = jvm.instantiate("java/lang/StringBuffer", "(Ljava/lang/String;)V", &[JavaValue::Object(Some(src))]).unwrap();
    assert_eq!(jvm.get_field(sb, "value", "[C").unwrap(), jvm.get_field(src, "value", "[C").unwrap());
    assert_eq!(jvm.get_field(sb, "count", "I").unwrap(), JavaValue::Int(3));
    let s = object(jvm.call_method(sb, "toString", "()Ljava/lang/String;", &[]).unwrap());
    assert_eq!(jvm.string_chars(s).unwrap(), utf16("abc"));
}

#[test]
fn field_put_then_get() {
    let mut jvm = Jvm::new(240, 320);
    let sb = jvm.instantiate("java/lang/StringBuffer", "()V", &[]).unwrap();
    jvm.put_field(sb, "count", "I", JavaValue::Int(5)).unwrap();
    assert_eq!(jvm.get_field(sb, "count", "I"), Ok(JavaValue::Int(5)));
    assert_eq!(jvm.put_field(sb, "count", "J", JavaValue::Long(5)), Err(JavaError::NoSuchField));
    assert_eq!(jvm.get_field(sb, "nothing", "I"), Err(JavaError::NoSuchField));
    let arr = jvm.instantiate_array("I", 2);
    assert_eq!(jvm.get_field(arr, "count", "I"), Err(JavaError::InvalidReference));
    assert_eq!(jvm.get_field(999, "count", "I"), Err(JavaError::InvalidReference));
}

#[test]
fn arrays_start_zeroed_and_check_bounds() {
    let mut jvm = Jvm::new(240, 320);
    let a = jvm.instantiate_array("J", 3);
    assert_eq!(jvm.load_array(a, 0, 3).unwrap(), vec![JavaValue::Long(0); 3]);
    jvm.store_array(a, 1, &[JavaValue::Long(7), JavaValue::Long(8)]).unwrap();
    assert_eq!(jvm.load_array(a, 0, 3).unwrap(), vec![JavaValue::Long(0), JavaValue::Long(7), JavaValue::Long(8)]);
    assert_eq!(jvm.store_array(a, 2, &[JavaValue::Long(1), JavaValue::Long(2)]), Err(JavaError::ArrayIndexOutOfBounds));
    assert_eq!(jvm.load_array(a, 3, 1), Err(JavaError::ArrayIndexOutOfBounds));
    let o = jvm.instantiate_array("Ljava/lang/Object;", 1);
    assert_eq!(jvm.load_array(o, 0, 1).unwrap(), vec![JavaValue::Object(None)]);
}

#[test]
fn overloads_resolve_by_descriptor() {
    let mut jvm = Jvm::new(240, 320);
    let sb_class = jvm.load_class("java/lang/StringBuffer").unwrap();
    assert_eq!(jvm.resolve_method(sb_class, "append", "(I)Ljava/lang/StringBuffer;"), Some(NativeMethod::StringBufferAppendInteger));
    assert_eq!(jvm.resolve_method(sb_class, "append", "(C)Ljava/lang/StringBuffer;"), Some(NativeMethod::StringBufferAppendCharacter));
    assert_eq!(jvm.resolve_method(sb_class, "append", "(Z)Ljava/lang/StringBuffer;"), None);
    let vib = jvm.load_class("org/kwis/msp/media/Vibrator").unwrap();
    assert_eq!(jvm.resolve_method(vib, "<init>", "()V"), Some(NativeMethod::Nop));
    assert_eq!(jvm.resolve_method(vib, "on", "(II)V"), Some(NativeMethod::Nop));
    let v = jvm.instantiate("org/kwis/msp/media/Vibrator", "()V", &[]).unwrap();
    assert_eq!(jvm.call_method(v, "off", "()V", &[]), Err(JavaError::NoSuchMethod));
    assert_eq!(jvm.load_class("com/example/Missing"), Err(JavaError::ClassNotFound));
}

#[test]
fn database_insert_select_count() {
    let mut jvm = Jvm::new(240, 320);
    let name = jvm.new_string(&utf16("X")).unwrap();
    let db = object(
        jvm.call_static_method(
            "org/kwis/msp/db/DataBase",
            "openDataBase",
            "(Ljava/lang/String;IZ)Lorg/kwis/msp/db/DataBase;",
            &[JavaValue::Object(Some(name)), JavaValue::Int(0), JavaValue::Boolean(true)],
        )
        .unwrap(),
    );
    let data = jvm.instantiate_array("B", 3);
    jvm.store_array(data, 0, &[JavaValue::Byte(1), JavaValue::Byte(2), JavaValue::Byte(3)]).unwrap();
    let id = jvm
        .call_method(db, "insertRecord", "([BII)I", &[JavaValue::Object(Some(data)), JavaValue::Int(0), JavaValue::Int(3)])
        .unwrap();
    assert_eq!(id, JavaValue::Int(1));
    let rec = object(jvm.call_method(db, "selectRecord", "(I)[B", &[JavaValue::Int(1)]).unwrap());
    assert_eq!(jvm.load_array(rec, 0, 3).unwrap(), vec![JavaValue::Byte(1), JavaValue::Byte(2), JavaValue::Byte(3)]);
    assert_eq!(jvm.call_method(db, "getNumberOfRecords", "()I", &[]), Ok(JavaValue::Int(1)));
    assert_eq!(jvm.call_method(db, "selectRecord", "(I)[B", &[JavaValue::Int(2)]), Err(JavaError::NoSuchRecord));
    assert_eq!(jvm.databases.len(), 1);
    assert_eq!(jvm.databases[0].name, utf16("X"));
}

#[test]
fn runtime_is_a_singleton() {
    let mut jvm = Jvm::new(240, 320);
    let get = "()Ljava/lang/Runtime;";
    let a = jvm.call_static_method("java/lang/Runtime", "getRuntime", get, &[]).unwrap();
    let b = jvm.call_static_method("java/lang/Runtime", "getRuntime", get, &[]).unwrap();
    assert_eq!(a, b);
    let r = object(a);
    assert_eq!(jvm.call_method(r, "totalMemory", "()J", &[]), Ok(JavaValue::Long(REPORTED_MEMORY)));
    assert_eq!(jvm.call_method(r, "freeMemory", "()J", &[]), Ok(JavaValue::Long(0x100000)));
    assert_eq!(jvm.call_method(r, "gc", "()V", &[]), Ok(JavaValue::Void));
}

#[test]
fn card_and_font_report_screen() {
    let mut jvm = Jvm::new(240, 320);
    let card = jvm.instantiate("org/kwis/msp/lcdui/Card", "(I)V", &[JavaValue::Int(0)]).unwrap();
    assert_eq!(jvm.call_method(card, "getWidth", "()I", &[]), Ok(JavaValue::Int(240)));
    assert_eq!(jvm.call_method(card, "getHeight", "()I", &[]), Ok(JavaValue::Int(320)));
    assert!(!jvm.redraw_requested);
    let args = [JavaValue::Int(0), JavaValue::Int(0), JavaValue::Int(10), JavaValue::Int(10)];
    jvm.call_method(card, "repaint", "(IIII)V", &args).unwrap();
    assert!(jvm.redraw_requested);
    let font = object(jvm.call_static_method("org/kwis/msp/lcdui/Font", "getDefaultFont", "()Lorg/kwis/msp/lcdui/Font;", &[]).unwrap());
    assert_eq!(jvm.call_method(font, "getHeight", "()I", &[]), Ok(JavaValue::Int(FONT_HEIGHT)));
}

#[test]
fn class_protos_of_builtins() {
    assert!(get_class_proto("java/lang/StringBuffer").is_some());
    assert!(get_class_proto("org/kwis/msp/db/DataBase").is_some());
    assert!(get_class_proto("java/lang/Missing").is_none());
    let p = StringBuffer::as_proto();
    assert_eq!(p.parent_class.as_deref(), Some("java/lang/Object"));
    assert_eq!(p.methods.len(), 7);
    assert_eq!(p.methods[3].descriptor, "(I)Ljava/lang/StringBuffer;");
    assert_eq!(p.fields[1].name, "count");
}

#[test]
fn decimal_forms() {
    assert_eq!(decimal_of(0), utf16("0"));
    assert_eq!(decimal_of(42), utf16("42"));
    assert_eq!(decimal_of(-7), utf16("-7"));
    assert_eq!(decimal_of(i64::MIN), utf16("-9223372036854775808"));
    assert_eq!(decimal_of(i64::MAX), utf16("9223372036854775807"));
}

#[test]
fn string_chars_round_trip() {
    let mut jvm = Jvm::new(1, 1);
    let s = jvm.instantiate("java/lang/String", "()V", &[]).unwrap();
    assert_eq!(jvm.string_chars(s).unwrap(), Vec::<u16>::new());
    let chars = jvm.instantiate_array("C", 4);
    jvm.store_array(chars, 0, &[JavaValue::Char(104), JavaValue::Char(105), JavaValue::Char(106), JavaValue::Char(107)]).unwrap();
    let t = jvm.instantiate("java/lang/String", "([CII)V", &[JavaValue::Object(Some(chars)), JavaValue::Int(1), JavaValue::Int(2)]).unwrap();
    assert_eq!(jvm.string_chars(t).unwrap(), utf16("ij"));
}

#[test]
fn host_methods_check_argument_types() {
    let mut jvm = Jvm::new(240, 320);
    let sb = jvm.instantiate("java/lang/StringBuffer", "()V", &[]).unwrap();
    assert_eq!(
        jvm.call_method(sb, "append", "(I)Ljava/lang/StringBuffer;", &[JavaValue::Char(1)]),
        Err(JavaError::InvalidArgument)
    );
    assert_eq!(jvm.call_method(sb, "append", APPEND_STRING, &[JavaValue::Object(None)]), Err(JavaError::InvalidReference));
    assert_eq!(jvm.call_method(sb, "append", APPEND_STRING, &[]), Err(JavaError::InvalidArgument));
}

#[test]
fn stub_classes_are_known() {
    for name in ["java/util/Vector", "java/lang/System", "org/kwis/msp/lcdui/Graphics", "org/kwis/msp/media/Player"] {
        let p = get_class_proto(name).unwrap();
        assert_eq!(p.parent_class.as_deref(), Some("java/lang/Object"));
        assert!(p.methods.is_empty());
    }
    assert!(get_class_proto("java.lang.String").is_none());
    assert!(get_class_proto("com/app/Main").is_none());
    let mut jvm = Jvm::new(1, 1);
    let v = jvm.instantiate("java/util/Vector", "()V", &[]).unwrap();
    assert_eq!(jvm.call_method(v, "size", "()I", &[]), Err(JavaError::NoSuchMethod));
}

#[test]
fn start_app_needs_a_known_class() {
    let mut jvm = Jvm::new(1, 1);
    assert_eq!(jvm.start_app("com/app/Main"), Err(JavaError::ClassNotFound));
}

#[test]
fn spawned_host_method_runs_as_task() {
    let mut jvm = Jvm::new(240, 320);
    let mut sched = wie::Scheduler::new();
    let card = jvm.instantiate("org/kwis/msp/lcdui/Card", "()V", &[]).unwrap();
    let id = jvm.spawn(&mut sched, NativeMethod::CardRepaint, card);
    jvm.sleep(&mut sched, id, 5);
    assert_eq!(sched.pop().unwrap().id, id);
    assert_eq!(jvm.run_task(id), Ok(Some(JavaValue::Void)));
    assert!(jvm.redraw_requested);
    assert_eq!(jvm.run_task(id), Ok(None));
    assert_eq!(sched.delayed[0].wake, 5);
}

#[test]
fn start_app_without_entry_point() {
    let mut jvm = Jvm::new(1, 1);
    jvm.load_class("java/lang/Thread").unwrap();
    assert_eq!(jvm.start_app("java/lang/Thread"), Err(JavaError::NoSuchMethod));
}

#[test]
fn open_database_stores_name() {
    let mut jvm = Jvm::new(1, 1);
    let name = jvm.new_string(&utf16("Y")).unwrap();
    let db = object(
        jvm.call_static_method(
            "org/kwis/msp/db/DataBase",
            "openDataBase",
            "(Ljava/lang/String;IZ)Lorg/kwis/msp/db/DataBase;",
            &[JavaValue::Object(Some(name)), JavaValue::Int(0), JavaValue::Boolean(true)],
        )
        .unwrap(),
    );
    assert_eq!(jvm.get_field(db, "dbName", "Ljava/lang/String;"), Ok(JavaValue::Object(Some(name))));
    assert_eq!(jvm.databases.len(), 0);
    assert_eq!(jvm.call_method(db, "getNumberOfRecords", "()I", &[]), Ok(JavaValue::Int(0)));
}

#[test]
fn append_keeps_array_when_it_fits() {
    let mut jvm = Jvm::new(1, 1);
    let sb = jvm.instantiate("java/lang/StringBuffer", "()V", &[]).unwrap();
    let before = jvm.get_field(sb, "value", "[C").unwrap();
    jvm.call_method(sb, "append", "(I)Ljava/lang/StringBuffer;", &[JavaValue::Int(123456)]).unwrap();
    assert_eq!(jvm.get_field(sb, "value", "[C").unwrap(), before);
    jvm.call_method(sb, "append", "(J)Ljava/lang/StringBuffer;", &[JavaValue::Long(12345678901)]).unwrap();
    assert_ne!(jvm.get_field(sb, "value", "[C").unwrap(), before);
    assert_eq!(jvm.array_length(buffer_array(&jvm, sb)).unwrap(), 32);
}
