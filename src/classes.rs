use vstd::prelude::*;
use crate::java::{JavaClassProto, JavaFieldAccessFlag, JavaFieldProto, JavaMethodFlag, JavaMethodProto, NativeMethod, str_eq};

verus! {

/// class java.lang.Object
pub struct Object {}

impl Object {
    pub open spec fn parent_spec() -> Option<Seq<char>> {
        None
    }

    pub open spec fn methods_spec() -> Seq<(Seq<char>, Seq<char>, NativeMethod, JavaMethodFlag)> {
        seq![
            ("<init>"@, "()V"@, NativeMethod::Nop, JavaMethodFlag::NONE),
        ]
    }

    pub open spec fn fields_spec() -> Seq<(Seq<char>, Seq<char>, JavaFieldAccessFlag)> {
        Seq::empty()
    }

    pub fn as_proto() -> (r: JavaClassProto)
        ensures
            r.parent_name() == Self::parent_spec(),
            r.method_table() == Self::methods_spec(),
            r.field_table() == Self::fields_spec(),
    {
        let methods = vec![
            JavaMethodProto::new("<init>", "()V", NativeMethod::Nop, JavaMethodFlag::NONE),
        ];
        let fields = Vec::new();
        let r = JavaClassProto { parent_class: None, interfaces: Vec::new(), methods, fields };
        assert(r.method_table() =~= Self::methods_spec());
        assert(r.field_table() =~= Self::fields_spec());
        r
    }
}

/// class java.lang.String
pub struct String {}

impl String {
    pub open spec fn parent_spec() -> Option<Seq<char>> {
        Some("java/lang/Object"@)
    }

    pub open spec fn methods_spec() -> Seq<(Seq<char>, Seq<char>, NativeMethod, JavaMethodFlag)> {
        seq![
            ("<init>"@, "()V"@, NativeMethod::StringInit, JavaMethodFlag::NONE),
            ("<init>"@, "([CII)V"@, NativeMethod::StringInitChars, JavaMethodFlag::NONE),
        ]
    }

    pub open spec fn fields_spec() -> Seq<(Seq<char>, Seq<char>, JavaFieldAccessFlag)> {
        seq![
            ("value"@, "[C"@, JavaFieldAccessFlag::NONE),
        ]
    }

    pub fn as_proto() -> (r: JavaClassProto)
        ensures
            r.parent_name() == Self::parent_spec(),
            r.method_table() == Self::methods_spec(),
            r.field_table() == Self::fields_spec(),
    {
        let methods = vec![
            JavaMethodProto::new("<init>", "()V", NativeMethod::StringInit, JavaMethodFlag::NONE),
            JavaMethodProto::new("<init>", "([CII)V", NativeMethod::StringInitChars, JavaMethodFlag::NONE),
        ];
        let fields = vec![
            JavaFieldProto::new("value", "[C", JavaFieldAccessFlag::NONE),
        ];
        let r = JavaClassProto { parent_class: Some("java/lang/Object".to_owned()), interfaces: Vec::new(), methods, fields };
        assert(r.method_table() =~= Self::methods_spec());
        assert(r.field_table() =~= Self::fields_spec());
        r
    }
}

/// class java.lang.Thread
pub struct Thread {}

impl Thread {
    pub open spec fn parent_spec() -> Option<Seq<char>> {
        Some("java/lang/Object"@)
    }

    pub open spec fn methods_spec() -> Seq<(Seq<char>, Seq<char>, NativeMethod, JavaMethodFlag)> {
        seq![
            ("<init>"@, "()V"@, NativeMethod::Nop, JavaMethodFlag::NONE),
        ]
    }

    pub open spec fn fields_spec() -> Seq<(Seq<char>, Seq<char>, JavaFieldAccessFlag)> {
        Seq::empty()
    }

    pub fn as_proto() -> (r: JavaClassProto)
        ensures
            r.parent_name() == Self::parent_spec(),
            r.method_table() == Self::methods_spec(),
            r.field_table() == Self::fields_spec(),
    {
        let methods = vec![
            JavaMethodProto::new("<init>", "()V", NativeMethod::Nop, JavaMethodFlag::NONE),
        ];
        let fields = Vec::new();
        let r = JavaClassProto { parent_class: Some("java/lang/Object".to_owned()), interfaces: Vec::new(), methods, fields };
        assert(r.method_table() =~= Self::methods_spec());
        assert(r.field_table() =~= Self::fields_spec());
        r
    }
}

/// class java.lang.Runtime
pub struct Runtime {}

impl Runtime {
    pub open spec fn parent_spec() -> Option<Seq<char>> {
        Some("java/lang/Object"@)
    }

    pub open spec fn methods_spec() -> Seq<(Seq<char>, Seq<char>, NativeMethod, JavaMethodFlag)> {
        seq![
            ("<init>"@, "()V"@, NativeMethod::Nop, JavaMethodFlag::NONE),
            ("getRuntime"@, "()Ljava/lang/Runtime;"@, NativeMethod::RuntimeGetRuntime, JavaMethodFlag::NONE),
            ("totalMemory"@, "()J"@, NativeMethod::RuntimeTotalMemory, JavaMethodFlag::NONE),
            ("freeMemory"@, "()J"@, NativeMethod::RuntimeFreeMemory, JavaMethodFlag::NONE),
            ("gc"@, "()V"@, NativeMethod::Nop, JavaMethodFlag::NONE),
        ]
    }

    pub open spec fn fields_spec() -> Seq<(Seq<char>, Seq<char>, JavaFieldAccessFlag)> {
        Seq::empty()
    }

    pub fn as_proto() -> (r: JavaClassProto)
        ensures
            r.parent_name() == Self::parent_spec(),
            r.method_table() == Self::methods_spec(),
            r.field_table() == Self::fields_spec(),
    {
        let methods = vec![
            JavaMethodProto::new("<init>", "()V", NativeMethod::Nop, JavaMethodFlag::NONE),
            JavaMethodProto::new("getRuntime", "()Ljava/lang/Runtime;", NativeMethod::RuntimeGetRuntime, JavaMethodFlag::NONE),
            JavaMethodProto::new("totalMemory", "()J", NativeMethod::RuntimeTotalMemory, JavaMethodFlag::NONE),
            JavaMethodProto::new("freeMemory", "()J", NativeMethod::RuntimeFreeMemory, JavaMethodFlag::NONE),
            JavaMethodProto::new("gc", "()V", NativeMethod::Nop, JavaMethodFlag::NONE),
        ];
        let fields = Vec::new();
        let r = JavaClassProto { parent_class: Some("java/lang/Object".to_owned()), interfaces: Vec::new(), methods, fields };
        assert(r.method_table() =~= Self::methods_spec());
        assert(r.field_table() =~= Self::fields_spec());
        r
    }
}

/// class java.lang.StringBuffer
pub struct StringBuffer {}

impl StringBuffer {
    pub open spec fn parent_spec() -> Option<Seq<char>> {
        Some("java/lang/Object"@)
    }

    pub open spec fn methods_spec() -> Seq<(Seq<char>, Seq<char>, NativeMethod, JavaMethodFlag)> {
        seq![
            ("<init>"@, "()V"@, NativeMethod::StringBufferInit, JavaMethodFlag::NONE),
            ("<init>"@, "(Ljava/lang/String;)V"@, NativeMethod::StringBufferInitWithString, JavaMethodFlag::NONE),
            ("append"@, "(Ljava/lang/String;)Ljava/lang/StringBuffer;"@, NativeMethod::StringBufferAppendString, JavaMethodFlag::NONE),
            ("append"@, "(I)Ljava/lang/StringBuffer;"@, NativeMethod::StringBufferAppendInteger, JavaMethodFlag::NONE),
            ("append"@, "(J)Ljava/lang/StringBuffer;"@, NativeMethod::StringBufferAppendLong, JavaMethodFlag::NONE),
            ("append"@, "(C)Ljava/lang/StringBuffer;"@, NativeMethod::StringBufferAppendCharacter, JavaMethodFlag::NONE),
            ("toString"@, "()Ljava/lang/String;"@, NativeMethod::StringBufferToString, JavaMethodFlag::NONE),
        ]
    }

    pub open spec fn fields_spec() -> Seq<(Seq<char>, Seq<char>, JavaFieldAccessFlag)> {
        seq![
            ("value"@, "[C"@, JavaFieldAccessFlag::NONE),
            ("count"@, "I"@, JavaFieldAccessFlag::NONE),
        ]
    }

    pub fn as_proto() -> (r: JavaClassProto)
        ensures
            r.parent_name() == Self::parent_spec(),
            r.method_table() == Self::methods_spec(),
            r.field_table() == Self::fields_spec(),
    {
        let methods = vec![
            JavaMethodProto::new("<init>", "()V", NativeMethod::StringBufferInit, JavaMethodFlag::NONE),
            JavaMethodProto::new("<init>", "(Ljava/lang/String;)V", NativeMethod::StringBufferInitWithString, JavaMethodFlag::NONE),
            JavaMethodProto::new("append", "(Ljava/lang/String;)Ljava/lang/StringBuffer;", NativeMethod::StringBufferAppendString, JavaMethodFlag::NONE),
            JavaMethodProto::new("append", "(I)Ljava/lang/StringBuffer;", NativeMethod::StringBufferAppendInteger, JavaMethodFlag::NONE),
            JavaMethodProto::new("append", "(J)Ljava/lang/StringBuffer;", NativeMethod::StringBufferAppendLong, JavaMethodFlag::NONE),
            JavaMethodProto::new("append", "(C)Ljava/lang/StringBuffer;", NativeMethod::StringBufferAppendCharacter, JavaMethodFlag::NONE),
            JavaMethodProto::new("toString", "()Ljava/lang/String;", NativeMethod::StringBufferToString, JavaMethodFlag::NONE),
        ];
        let fields = vec![
            JavaFieldProto::new("value", "[C", JavaFieldAccessFlag::NONE),
            JavaFieldProto::new("count", "I", JavaFieldAccessFlag::NONE),
        ];
        let r = JavaClassProto { parent_class: Some("java/lang/Object".to_owned()), interfaces: Vec::new(), methods, fields };
        assert(r.method_table() =~= Self::methods_spec());
        assert(r.field_table() =~= Self::fields_spec());
        r
    }
}

/// class org.kwis.msp.lcdui.Card
pub struct Card {}

impl Card {
    pub open spec fn parent_spec() -> Option<Seq<char>> {
        Some("java/lang/Object"@)
    }

    pub open spec fn methods_spec() -> Seq<(Seq<char>, Seq<char>, NativeMethod, JavaMethodFlag)> {
        seq![
            ("<init>"@, "()V"@, NativeMethod::Nop, JavaMethodFlag::NONE),
            ("<init>"@, "(I)V"@, NativeMethod::Nop, JavaMethodFlag::NONE),
            ("getWidth"@, "()I"@, NativeMethod::CardGetWidth, JavaMethodFlag::NONE),
            ("getHeight"@, "()I"@, NativeMethod::CardGetHeight, JavaMethodFlag::NONE),
            ("repaint"@, "(IIII)V"@, NativeMethod::CardRepaint, JavaMethodFlag::NONE),
            ("serviceRepaints"@, "()V"@, NativeMethod::CardRepaint, JavaMethodFlag::NONE),
        ]
    }

    pub open spec fn fields_spec() -> Seq<(Seq<char>, Seq<char>, JavaFieldAccessFlag)> {
        seq![
            ("display"@, "Lorg/kwis/msp/lcdui/Display;"@, JavaFieldAccessFlag::NONE),
        ]
    }

    pub fn as_proto() -> (r: JavaClassProto)
        ensures
            r.parent_name() == Self::parent_spec(),
            r.method_table() == Self::methods_spec(),
            r.field_table() == Self::fields_spec(),
    {
        let methods = vec![
            JavaMethodProto::new("<init>", "()V", NativeMethod::Nop, JavaMethodFlag::NONE),
            JavaMethodProto::new("<init>", "(I)V", NativeMethod::Nop, JavaMethodFlag::NONE),
            JavaMethodProto::new("getWidth", "()I", NativeMethod::CardGetWidth, JavaMethodFlag::NONE),
            JavaMethodProto::new("getHeight", "()I", NativeMethod::CardGetHeight, JavaMethodFlag::NONE),
            JavaMethodProto::new("repaint", "(IIII)V", NativeMethod::CardRepaint, JavaMethodFlag::NONE),
            JavaMethodProto::new("serviceRepaints", "()V", NativeMethod::CardRepaint, JavaMethodFlag::NONE),
        ];
        let fields = vec![
            JavaFieldProto::new("display", "Lorg/kwis/msp/lcdui/Display;", JavaFieldAccessFlag::NONE),
        ];
        let r = JavaClassProto { parent_class: Some("java/lang/Object".to_owned()), interfaces: Vec::new(), methods, fields };
        assert(r.method_table() =~= Self::methods_spec());
        assert(r.field_table() =~= Self::fields_spec());
        r
    }
}

/// class org.kwis.msp.lcdui.Font
pub struct Font {}

impl Font {
    pub open spec fn parent_spec() -> Option<Seq<char>> {
        Some("java/lang/Object"@)
    }

    pub open spec fn methods_spec() -> Seq<(Seq<char>, Seq<char>, NativeMethod, JavaMethodFlag)> {
        seq![
            ("<init>"@, "()V"@, NativeMethod::Nop, JavaMethodFlag::NONE),
            ("getHeight"@, "()I"@, NativeMethod::FontGetHeight, JavaMethodFlag::NONE),
            ("getDefaultFont"@, "()Lorg/kwis/msp/lcdui/Font;"@, NativeMethod::FontGetDefaultFont, JavaMethodFlag::STATIC),
        ]
    }

    pub open spec fn fields_spec() -> Seq<(Seq<char>, Seq<char>, JavaFieldAccessFlag)> {
        Seq::empty()
    }

    pub fn as_proto() -> (r: JavaClassProto)
        ensures
            r.parent_name() == Self::parent_spec(),
            r.method_table() == Self::methods_spec(),
            r.field_table() == Self::fields_spec(),
    {
        let methods = vec![
            JavaMethodProto::new("<init>", "()V", NativeMethod::Nop, JavaMethodFlag::NONE),
            JavaMethodProto::new("getHeight", "()I", NativeMethod::FontGetHeight, JavaMethodFlag::NONE),
            JavaMethodProto::new("getDefaultFont", "()Lorg/kwis/msp/lcdui/Font;", NativeMethod::FontGetDefaultFont, JavaMethodFlag::STATIC),
        ];
        let fields = Vec::new();
        let r = JavaClassProto { parent_class: Some("java/lang/Object".to_owned()), interfaces: Vec::new(), methods, fields };
        assert(r.method_table() =~= Self::methods_spec());
        assert(r.field_table() =~= Self::fields_spec());
        r
    }
}

/// class org.kwis.msp.lcdui.Image
pub struct Image {}

impl Image {
    pub open spec fn parent_spec() -> Option<Seq<char>> {
        Some("java/lang/Object"@)
    }

    pub open spec fn methods_spec() -> Seq<(Seq<char>, Seq<char>, NativeMethod, JavaMethodFlag)> {
        seq![
            ("<init>"@, "(I)V"@, NativeMethod::Nop, JavaMethodFlag::NONE),
        ]
    }

    pub open spec fn fields_spec() -> Seq<(Seq<char>, Seq<char>, JavaFieldAccessFlag)> {
        Seq::empty()
    }

    pub fn as_proto() -> (r: JavaClassProto)
        ensures
            r.parent_name() == Self::parent_spec(),
            r.method_table() == Self::methods_spec(),
            r.field_table() == Self::fields_spec(),
    {
        let methods = vec![
            JavaMethodProto::new("<init>", "(I)V", NativeMethod::Nop, JavaMethodFlag::NONE),
        ];
        let fields = Vec::new();
        let r = JavaClassProto { parent_class: Some("java/lang/Object".to_owned()), interfaces: Vec::new(), methods, fields };
        assert(r.method_table() =~= Self::methods_spec());
        assert(r.field_table() =~= Self::fields_spec());
        r
    }
}

/// class org.kwis.msp.db.DataBase
pub struct DataBase {}

impl DataBase {
    pub open spec fn parent_spec() -> Option<Seq<char>> {
        Some("java/lang/Object"@)
    }

    pub open spec fn methods_spec() -> Seq<(Seq<char>, Seq<char>, NativeMethod, JavaMethodFlag)> {
        seq![
            ("<init>"@, "(Ljava/lang/String;)V"@, NativeMethod::DataBaseInit, JavaMethodFlag::NONE),
            ("openDataBase"@, "(Ljava/lang/String;IZ)Lorg/kwis/msp/db/DataBase;"@, NativeMethod::DataBaseOpen, JavaMethodFlag::STATIC),
            ("getNumberOfRecords"@, "()I"@, NativeMethod::DataBaseGetNumberOfRecords, JavaMethodFlag::NONE),
            ("closeDataBase"@, "()V"@, NativeMethod::Nop, JavaMethodFlag::NONE),
            ("insertRecord"@, "([BII)I"@, NativeMethod::DataBaseInsertRecord, JavaMethodFlag::NONE),
            ("selectRecord"@, "(I)[B"@, NativeMethod::DataBaseSelectRecord, JavaMethodFlag::NONE),
        ]
    }

    pub open spec fn fields_spec() -> Seq<(Seq<char>, Seq<char>, JavaFieldAccessFlag)> {
        seq![
            ("dbName"@, "Ljava/lang/String;"@, JavaFieldAccessFlag::NONE),
        ]
    }

    pub fn as_proto() -> (r: JavaClassProto)
        ensures
            r.parent_name() == Self::parent_spec(),
            r.method_table() == Self::methods_spec(),
            r.field_table() == Self::fields_spec(),
    {
        let methods = vec![
            JavaMethodProto::new("<init>", "(Ljava/lang/String;)V", NativeMethod::DataBaseInit, JavaMethodFlag::NONE),
            JavaMethodProto::new("openDataBase", "(Ljava/lang/String;IZ)Lorg/kwis/msp/db/DataBase;", NativeMethod::DataBaseOpen, JavaMethodFlag::STATIC),
            JavaMethodProto::new("getNumberOfRecords", "()I", NativeMethod::DataBaseGetNumberOfRecords, JavaMethodFlag::NONE),
            JavaMethodProto::new("closeDataBase", "()V", NativeMethod::Nop, JavaMethodFlag::NONE),
            JavaMethodProto::new("insertRecord", "([BII)I", NativeMethod::DataBaseInsertRecord, JavaMethodFlag::NONE),
            JavaMethodProto::new("selectRecord", "(I)[B", NativeMethod::DataBaseSelectRecord, JavaMethodFlag::NONE),
        ];
        let fields = vec![
            JavaFieldProto::new("dbName", "Ljava/lang/String;", JavaFieldAccessFlag::NONE),
        ];
        let r = JavaClassProto { parent_class: Some("java/lang/Object".to_owned()), interfaces: Vec::new(), methods, fields };
        assert(r.method_table() =~= Self::methods_spec());
        assert(r.field_table() =~= Self::fields_spec());
        r
    }
}

/// class org.kwis.msp.media.Clip
pub struct Clip {}

impl Clip {
    pub open spec fn parent_spec() -> Option<Seq<char>> {
        Some("java/lang/Object"@)
    }

    pub open spec fn methods_spec() -> Seq<(Seq<char>, Seq<char>, NativeMethod, JavaMethodFlag)> {
        seq![
            ("<init>"@, "(I)V"@, NativeMethod::Nop, JavaMethodFlag::NONE),
        ]
    }

    pub open spec fn fields_spec() -> Seq<(Seq<char>, Seq<char>, JavaFieldAccessFlag)> {
        Seq::empty()
    }

    pub fn as_proto() -> (r: JavaClassProto)
        ensures
            r.parent_name() == Self::parent_spec(),
            r.method_table() == Self::methods_spec(),
            r.field_table() == Self::fields_spec(),
    {
        let methods = vec![
            JavaMethodProto::new("<init>", "(I)V", NativeMethod::Nop, JavaMethodFlag::NONE),
        ];
        let fields = Vec::new();
        let r = JavaClassProto { parent_class: Some("java/lang/Object".to_owned()), interfaces: Vec::new(), methods, fields };
        assert(r.method_table() =~= Self::methods_spec());
        assert(r.field_table() =~= Self::fields_spec());
        r
    }
}

/// class org.kwis.msp.media.Vibrator
pub struct Vibrator {}

impl Vibrator {
    pub open spec fn parent_spec() -> Option<Seq<char>> {
        Some("java/lang/Object"@)
    }

    pub open spec fn methods_spec() -> Seq<(Seq<char>, Seq<char>, NativeMethod, JavaMethodFlag)> {
        seq![
            ("on"@, "(II)V"@, NativeMethod::Nop, JavaMethodFlag::NATIVE),
        ]
    }

    pub open spec fn fields_spec() -> Seq<(Seq<char>, Seq<char>, JavaFieldAccessFlag)> {
        Seq::empty()
    }

    pub fn as_proto() -> (r: JavaClassProto)
        ensures
            r.parent_name() == Self::parent_spec(),
            r.method_table() == Self::methods_spec(),
            r.field_table() == Self::fields_spec(),
    {
        let methods = vec![
            JavaMethodProto::new("on", "(II)V", NativeMethod::Nop, JavaMethodFlag::NATIVE),
        ];
        let fields = Vec::new();
        let r = JavaClassProto { parent_class: Some("java/lang/Object".to_owned()), interfaces: Vec::new(), methods, fields };
        assert(r.method_table() =~= Self::methods_spec());
        assert(r.field_table() =~= Self::fields_spec());
        r
    }
}

/// Names of the classes that are built into the host, in lookup order.
pub open spec fn builtin_class_names() -> Seq<Seq<char>> {
    seq![
        "java/lang/Object"@,
        "java/lang/String"@,
        "java/lang/Thread"@,
        "java/lang/Runtime"@,
        "java/lang/StringBuffer"@,
        "org/kwis/msp/lcdui/Card"@,
        "org/kwis/msp/lcdui/Font"@,
        "org/kwis/msp/lcdui/Image"@,
        "org/kwis/msp/db/DataBase"@,
        "org/kwis/msp/media/Clip"@,
        "org/kwis/msp/media/Vibrator"@,
        "java/io/ByteArrayInputStream"@,
        "java/io/IOException"@,
        "java/io/InputStream"@,
        "java/lang/Class"@,
        "java/lang/Exception"@,
        "java/lang/IllegalArgumentException"@,
        "java/lang/InterruptedException"@,
        "java/lang/Runnable"@,
        "java/lang/System"@,
        "java/lang/Throwable"@,
        "java/util/Hashtable"@,
        "java/util/Random"@,
        "java/util/Vector"@,
        "org/kwis/msp/db/DataBaseRecordException"@,
        "org/kwis/msp/handset/BackLight"@,
        "org/kwis/msp/handset/HandsetProperty"@,
        "org/kwis/msp/lcdui/Display"@,
        "org/kwis/msp/lcdui/EventQueue"@,
        "org/kwis/msp/lcdui/Graphics"@,
        "org/kwis/msp/lcdui/Main"@,
        "org/kwis/msp/lcdui/Jlet"@,
        "org/kwis/msp/lcdui/JletEventListener"@,
        "org/kwis/msp/lwc/AnnunciatorComponent"@,
        "org/kwis/msp/lwc/Component"@,
        "org/kwis/msp/lwc/ContainerComponent"@,
        "org/kwis/msp/lwc/ShellComponent"@,
        "org/kwis/msp/lwc/TextComponent"@,
        "org/kwis/msp/lwc/TextFieldComponent"@,
        "org/kwis/msp/media/Player"@,
        "org/kwis/msp/media/PlayListener"@,
    ]
}

/// Parent of the built-in class `name`.
pub open spec fn builtin_parent(name: Seq<char>) -> Option<Option<Seq<char>>> {
    if name == "java/lang/Object"@ {
        Some(Object::parent_spec())
    } else if name == "java/lang/String"@ {
        Some(String::parent_spec())
    } else if name == "java/lang/Thread"@ {
        Some(Thread::parent_spec())
    } else if name == "java/lang/Runtime"@ {
        Some(Runtime::parent_spec())
    } else if name == "java/lang/StringBuffer"@ {
        Some(StringBuffer::parent_spec())
    } else if name == "org/kwis/msp/lcdui/Card"@ {
        Some(Card::parent_spec())
    } else if name == "org/kwis/msp/lcdui/Font"@ {
        Some(Font::parent_spec())
    } else if name == "org/kwis/msp/lcdui/Image"@ {
        Some(Image::parent_spec())
    } else if name == "org/kwis/msp/db/DataBase"@ {
        Some(DataBase::parent_spec())
    } else if name == "org/kwis/msp/media/Clip"@ {
        Some(Clip::parent_spec())
    } else if name == "org/kwis/msp/media/Vibrator"@ {
        Some(Vibrator::parent_spec())
    } else if name == "java/io/ByteArrayInputStream"@ {
        Some(Some("java/lang/Object"@))
    } else if name == "java/io/IOException"@ {
        Some(Some("java/lang/Object"@))
    } else if name == "java/io/InputStream"@ {
        Some(Some("java/lang/Object"@))
    } else if name == "java/lang/Class"@ {
        Some(Some("java/lang/Object"@))
    } else if name == "java/lang/Exception"@ {
        Some(Some("java/lang/Object"@))
    } else if name == "java/lang/IllegalArgumentException"@ {
        Some(Some("java/lang/Object"@))
    } else if name == "java/lang/InterruptedException"@ {
        Some(Some("java/lang/Object"@))
    } else if name == "java/lang/Runnable"@ {
        Some(Some("java/lang/Object"@))
    } else if name == "java/lang/System"@ {
        Some(Some("java/lang/Object"@))
    } else if name == "java/lang/Throwable"@ {
        Some(Some("java/lang/Object"@))
    } else if name == "java/util/Hashtable"@ {
        Some(Some("java/lang/Object"@))
    } else if name == "java/util/Random"@ {
        Some(Some("java/lang/Object"@))
    } else if name == "java/util/Vector"@ {
        Some(Some("java/lang/Object"@))
    } else if name == "org/kwis/msp/db/DataBaseRecordException"@ {
        Some(Some("java/lang/Object"@))
    } else if name == "org/kwis/msp/handset/BackLight"@ {
        Some(Some("java/lang/Object"@))
    } else if name == "org/kwis/msp/handset/HandsetProperty"@ {
        Some(Some("java/lang/Object"@))
    } else if name == "org/kwis/msp/lcdui/Display"@ {
        Some(Some("java/lang/Object"@))
    } else if name == "org/kwis/msp/lcdui/EventQueue"@ {
        Some(Some("java/lang/Object"@))
    } else if name == "org/kwis/msp/lcdui/Graphics"@ {
        Some(Some("java/lang/Object"@))
    } else if name == "org/kwis/msp/lcdui/Main"@ {
        Some(Some("java/lang/Object"@))
    } else if name == "org/kwis/msp/lcdui/Jlet"@ {
        Some(Some("java/lang/Object"@))
    } else if name == "org/kwis/msp/lcdui/JletEventListener"@ {
        Some(Some("java/lang/Object"@))
    } else if name == "org/kwis/msp/lwc/AnnunciatorComponent"@ {
        Some(Some("java/lang/Object"@))
    } else if name == "org/kwis/msp/lwc/Component"@ {
        Some(Some("java/lang/Object"@))
    } else if name == "org/kwis/msp/lwc/ContainerComponent"@ {
        Some(Some("java/lang/Object"@))
    } else if name == "org/kwis/msp/lwc/ShellComponent"@ {
        Some(Some("java/lang/Object"@))
    } else if name == "org/kwis/msp/lwc/TextComponent"@ {
        Some(Some("java/lang/Object"@))
    } else if name == "org/kwis/msp/lwc/TextFieldComponent"@ {
        Some(Some("java/lang/Object"@))
    } else if name == "org/kwis/msp/media/Player"@ {
        Some(Some("java/lang/Object"@))
    } else if name == "org/kwis/msp/media/PlayListener"@ {
        Some(Some("java/lang/Object"@))
    } else {
        None
    }
}

/// Methods of the built-in class `name`.
pub open spec fn builtin_methods(name: Seq<char>) -> Option<Seq<(Seq<char>, Seq<char>, NativeMethod, JavaMethodFlag)>> {
    if name == "java/lang/Object"@ {
        Some(Object::methods_spec())
    } else if name == "java/lang/String"@ {
        Some(String::methods_spec())
    } else if name == "java/lang/Thread"@ {
        Some(Thread::methods_spec())
    } else if name == "java/lang/Runtime"@ {
        Some(Runtime::methods_spec())
    } else if name == "java/lang/StringBuffer"@ {
        Some(StringBuffer::methods_spec())
    } else if name == "org/kwis/msp/lcdui/Card"@ {
        Some(Card::methods_spec())
    } else if name == "org/kwis/msp/lcdui/Font"@ {
        Some(Font::methods_spec())
    } else if name == "org/kwis/msp/lcdui/Image"@ {
        Some(Image::methods_spec())
    } else if name == "org/kwis/msp/db/DataBase"@ {
        Some(DataBase::methods_spec())
    } else if name == "org/kwis/msp/media/Clip"@ {
        Some(Clip::methods_spec())
    } else if name == "org/kwis/msp/media/Vibrator"@ {
        Some(Vibrator::methods_spec())
    } else if name == "java/io/ByteArrayInputStream"@ {
        Some(Seq::empty())
    } else if name == "java/io/IOException"@ {
        Some(Seq::empty())
    } else if name == "java/io/InputStream"@ {
        Some(Seq::empty())
    } else if name == "java/lang/Class"@ {
        Some(Seq::empty())
    } else if name == "java/lang/Exception"@ {
        Some(Seq::empty())
    } else if name == "java/lang/IllegalArgumentException"@ {
        Some(Seq::empty())
    } else if name == "java/lang/InterruptedException"@ {
        Some(Seq::empty())
    } else if name == "java/lang/Runnable"@ {
        Some(Seq::empty())
    } else if name == "java/lang/System"@ {
        Some(Seq::empty())
    } else if name == "java/lang/Throwable"@ {
        Some(Seq::empty())
    } else if name == "java/util/Hashtable"@ {
        Some(Seq::empty())
    } else if name == "java/util/Random"@ {
        Some(Seq::empty())
    } else if name == "java/util/Vector"@ {
        Some(Seq::empty())
    } else if name == "org/kwis/msp/db/DataBaseRecordException"@ {
        Some(Seq::empty())
    } else if name == "org/kwis/msp/handset/BackLight"@ {
        Some(Seq::empty())
    } else if name == "org/kwis/msp/handset/HandsetProperty"@ {
        Some(Seq::empty())
    } else if name == "org/kwis/msp/lcdui/Display"@ {
        Some(Seq::empty())
    } else if name == "org/kwis/msp/lcdui/EventQueue"@ {
        Some(Seq::empty())
    } else if name == "org/kwis/msp/lcdui/Graphics"@ {
        Some(Seq::empty())
    } else if name == "org/kwis/msp/lcdui/Main"@ {
        Some(Seq::empty())
    } else if name == "org/kwis/msp/lcdui/Jlet"@ {
        Some(Seq::empty())
    } else if name == "org/kwis/msp/lcdui/JletEventListener"@ {
        Some(Seq::empty())
    } else if name == "org/kwis/msp/lwc/AnnunciatorComponent"@ {
        Some(Seq::empty())
    } else if name == "org/kwis/msp/lwc/Component"@ {
        Some(Seq::empty())
    } else if name == "org/kwis/msp/lwc/ContainerComponent"@ {
        Some(Seq::empty())
    } else if name == "org/kwis/msp/lwc/ShellComponent"@ {
        Some(Seq::empty())
    } else if name == "org/kwis/msp/lwc/TextComponent"@ {
        Some(Seq::empty())
    } else if name == "org/kwis/msp/lwc/TextFieldComponent"@ {
        Some(Seq::empty())
    } else if name == "org/kwis/msp/media/Player"@ {
        Some(Seq::empty())
    } else if name == "org/kwis/msp/media/PlayListener"@ {
        Some(Seq::empty())
    } else {
        None
    }
}

/// Fields of the built-in class `name`.
pub open spec fn builtin_fields(name: Seq<char>) -> Option<Seq<(Seq<char>, Seq<char>, JavaFieldAccessFlag)>> {
    if name == "java/lang/Object"@ {
        Some(Object::fields_spec())
    } else if name == "java/lang/String"@ {
        Some(String::fields_spec())
    } else if name == "java/lang/Thread"@ {
        Some(Thread::fields_spec())
    } else if name == "java/lang/Runtime"@ {
        Some(Runtime::fields_spec())
    } else if name == "java/lang/StringBuffer"@ {
        Some(StringBuffer::fields_spec())
    } else if name == "org/kwis/msp/lcdui/Card"@ {
        Some(Card::fields_spec())
    } else if name == "org/kwis/msp/lcdui/Font"@ {
        Some(Font::fields_spec())
    } else if name == "org/kwis/msp/lcdui/Image"@ {
        Some(Image::fields_spec())
    } else if name == "org/kwis/msp/db/DataBase"@ {
        Some(DataBase::fields_spec())
    } else if name == "org/kwis/msp/media/Clip"@ {
        Some(Clip::fields_spec())
    } else if name == "org/kwis/msp/media/Vibrator"@ {
        Some(Vibrator::fields_spec())
    } else if name == "java/io/ByteArrayInputStream"@ {
        Some(Seq::empty())
    } else if name == "java/io/IOException"@ {
        Some(Seq::empty())
    } else if name == "java/io/InputStream"@ {
        Some(Seq::empty())
    } else if name == "java/lang/Class"@ {
        Some(Seq::empty())
    } else if name == "java/lang/Exception"@ {
        Some(Seq::empty())
    } else if name == "java/lang/IllegalArgumentException"@ {
        Some(Seq::empty())
    } else if name == "java/lang/InterruptedException"@ {
        Some(Seq::empty())
    } else if name == "java/lang/Runnable"@ {
        Some(Seq::empty())
    } else if name == "java/lang/System"@ {
        Some(Seq::empty())
    } else if name == "java/lang/Throwable"@ {
        Some(Seq::empty())
    } else if name == "java/util/Hashtable"@ {
        Some(Seq::empty())
    } else if name == "java/util/Random"@ {
        Some(Seq::empty())
    } else if name == "java/util/Vector"@ {
        Some(Seq::empty())
    } else if name == "org/kwis/msp/db/DataBaseRecordException"@ {
        Some(Seq::empty())
    } else if name == "org/kwis/msp/handset/BackLight"@ {
        Some(Seq::empty())
    } else if name == "org/kwis/msp/handset/HandsetProperty"@ {
        Some(Seq::empty())
    } else if name == "org/kwis/msp/lcdui/Display"@ {
        Some(Seq::empty())
    } else if name == "org/kwis/msp/lcdui/EventQueue"@ {
        Some(Seq::empty())
    } else if name == "org/kwis/msp/lcdui/Graphics"@ {
        Some(Seq::empty())
    } else if name == "org/kwis/msp/lcdui/Main"@ {
        Some(Seq::empty())
    } else if name == "org/kwis/msp/lcdui/Jlet"@ {
        Some(Seq::empty())
    } else if name == "org/kwis/msp/lcdui/JletEventListener"@ {
        Some(Seq::empty())
    } else if name == "org/kwis/msp/lwc/AnnunciatorComponent"@ {
        Some(Seq::empty())
    } else if name == "org/kwis/msp/lwc/Component"@ {
        Some(Seq::empty())
    } else if name == "org/kwis/msp/lwc/ContainerComponent"@ {
        Some(Seq::empty())
    } else if name == "org/kwis/msp/lwc/ShellComponent"@ {
        Some(Seq::empty())
    } else if name == "org/kwis/msp/lwc/TextComponent"@ {
        Some(Seq::empty())
    } else if name == "org/kwis/msp/lwc/TextFieldComponent"@ {
        Some(Seq::empty())
    } else if name == "org/kwis/msp/media/Player"@ {
        Some(Seq::empty())
    } else if name == "org/kwis/msp/media/PlayListener"@ {
        Some(Seq::empty())
    } else {
        None
    }
}

/// Every built-in class but `java/lang/Object` has `java/lang/Object` as
/// its parent; `java/lang/Object` has none.
pub proof fn lemma_builtin_parents(name: Seq<char>)
    ensures
        builtin_parent(name) is Some ==> builtin_parent(name) == Some(Some("java/lang/Object"@)) || (name == "java/lang/Object"@
            && builtin_parent(name) == Some(None::<Seq<char>>)),
        builtin_parent("java/lang/Object"@) == Some(None::<Seq<char>>),
        builtin_methods("java/lang/Object"@) is Some,
{
}

/// The table entries of `java/lang/String` and `java/lang/StringBuffer`.
pub proof fn lemma_string_classes()
    ensures
        builtin_methods("java/lang/String"@) == Some(String::methods_spec()),
        builtin_fields("java/lang/String"@) == Some(String::fields_spec()),
        builtin_methods("java/lang/StringBuffer"@) == Some(StringBuffer::methods_spec()),
        builtin_fields("java/lang/StringBuffer"@) == Some(StringBuffer::fields_spec()),
{
    reveal_strlit("java/lang/Object");
    reveal_strlit("java/lang/String");
    reveal_strlit("java/lang/Thread");
    reveal_strlit("java/lang/Runtime");
    reveal_strlit("java/lang/StringBuffer");
    assert("java/lang/String"@[10] != "java/lang/Object"@[10]);
    assert("java/lang/StringBuffer"@.len() != "java/lang/Object"@.len());
    assert("java/lang/StringBuffer"@.len() != "java/lang/String"@.len());
    assert("java/lang/StringBuffer"@.len() != "java/lang/Thread"@.len());
    assert("java/lang/StringBuffer"@.len() != "java/lang/Runtime"@.len());
}

/// The table entries of `java/lang/Runtime`, `org/kwis/msp/db/DataBase` and
/// `org/kwis/msp/lcdui/Font`.
pub proof fn lemma_runtime_database_font()
    ensures
        builtin_methods("java/lang/Runtime"@) == Some(Runtime::methods_spec()),
        builtin_methods("org/kwis/msp/db/DataBase"@) == Some(DataBase::methods_spec()),
        builtin_fields("org/kwis/msp/db/DataBase"@) == Some(DataBase::fields_spec()),
        builtin_methods("org/kwis/msp/lcdui/Font"@) == Some(Font::methods_spec()),
{
    reveal_strlit("java/lang/Object");
    reveal_strlit("java/lang/String");
    reveal_strlit("java/lang/Thread");
    reveal_strlit("java/lang/Runtime");
    reveal_strlit("java/lang/StringBuffer");
    reveal_strlit("org/kwis/msp/lcdui/Card");
    reveal_strlit("org/kwis/msp/lcdui/Font");
    reveal_strlit("org/kwis/msp/lcdui/Image");
    reveal_strlit("org/kwis/msp/db/DataBase");
    assert("org/kwis/msp/db/DataBase"@[13] != "org/kwis/msp/lcdui/Image"@[13]);
    assert("java/lang/Runtime"@.len() != "java/lang/Object"@.len());
    assert("java/lang/Runtime"@.len() != "java/lang/String"@.len());
    assert("java/lang/Runtime"@.len() != "java/lang/Thread"@.len());
    assert("org/kwis/msp/lcdui/Font"@.len() != "java/lang/Object"@.len());
    assert("org/kwis/msp/lcdui/Font"@.len() != "java/lang/String"@.len());
    assert("org/kwis/msp/lcdui/Font"@.len() != "java/lang/Thread"@.len());
    assert("org/kwis/msp/lcdui/Font"@.len() != "java/lang/Runtime"@.len());
    assert("org/kwis/msp/lcdui/Font"@.len() != "java/lang/StringBuffer"@.len());
    assert("org/kwis/msp/lcdui/Font"@[19] != "org/kwis/msp/lcdui/Card"@[19]);
}

/// Prototype of a built-in class that the host implements with no members
/// of its own: its parent is `java/lang/Object`.
pub fn stub_proto() -> (r: JavaClassProto)
    ensures
        r.parent_name() == Some("java/lang/Object"@),
        r.method_table().len() == 0,
        r.field_table().len() == 0,
{
    let r = JavaClassProto { parent_class: Some("java/lang/Object".to_owned()), interfaces: Vec::new(), methods: Vec::new(), fields: Vec::new() };
    assert(r.method_table() =~= Seq::empty());
    r
}

/// The prototype of the built-in class `name` (with `/` separators), or
/// `None` when the host implements no class of that name.
pub fn get_class_proto(name: &str) -> (r: Option<JavaClassProto>)
    ensures
        r is Some <==> builtin_class_names().contains(name@),
        r is Some <==> builtin_methods(name@) is Some,
        r is Some ==> Some(r->Some_0.parent_name()) == builtin_parent(name@) && Some(r->Some_0.method_table())
            == builtin_methods(name@) && Some(r->Some_0.field_table()) == builtin_fields(name@),
{
    assert(builtin_class_names().contains(name@) <== builtin_methods(name@) is Some) by {
        if builtin_methods(name@) is Some {
            assert(exists|k: int| 0 <= k < builtin_class_names().len() && builtin_class_names()[k] == name@);
        }
    }
    if str_eq(name, "java/lang/Object") {
        return Some(Object::as_proto());
    }
    if str_eq(name, "java/lang/String") {
        return Some(String::as_proto());
    }
    if str_eq(name, "java/lang/Thread") {
        return Some(Thread::as_proto());
    }
    if str_eq(name, "java/lang/Runtime") {
        return Some(Runtime::as_proto());
    }
    if str_eq(name, "java/lang/StringBuffer") {
        return Some(StringBuffer::as_proto());
    }
    if str_eq(name, "org/kwis/msp/lcdui/Card") {
        return Some(Card::as_proto());
    }
    if str_eq(name, "org/kwis/msp/lcdui/Font") {
        return Some(Font::as_proto());
    }
    if str_eq(name, "org/kwis/msp/lcdui/Image") {
        return Some(Image::as_proto());
    }
    if str_eq(name, "org/kwis/msp/db/DataBase") {
        return Some(DataBase::as_proto());
    }
    if str_eq(name, "org/kwis/msp/media/Clip") {
        return Some(Clip::as_proto());
    }
    if str_eq(name, "org/kwis/msp/media/Vibrator") {
        return Some(Vibrator::as_proto());
    }
    if str_eq(name, "java/io/ByteArrayInputStream") {
        return Some(stub_proto());
    }
    if str_eq(name, "java/io/IOException") {
        return Some(stub_proto());
    }
    if str_eq(name, "java/io/InputStream") {
        return Some(stub_proto());
    }
    if str_eq(name, "java/lang/Class") {
        return Some(stub_proto());
    }
    if str_eq(name, "java/lang/Exception") {
        return Some(stub_proto());
    }
    if str_eq(name, "java/lang/IllegalArgumentException") {
        return Some(stub_proto());
    }
    if str_eq(name, "java/lang/InterruptedException") {
        return Some(stub_proto());
    }
    if str_eq(name, "java/lang/Runnable") {
        return Some(stub_proto());
    }
    if str_eq(name, "java/lang/System") {
        return Some(stub_proto());
    }
    if str_eq(name, "java/lang/Throwable") {
        return Some(stub_proto());
    }
    if str_eq(name, "java/util/Hashtable") {
        return Some(stub_proto());
    }
    if str_eq(name, "java/util/Random") {
        return Some(stub_proto());
    }
    if str_eq(name, "java/util/Vector") {
        return Some(stub_proto());
    }
    if str_eq(name, "org/kwis/msp/db/DataBaseRecordException") {
        return Some(stub_proto());
    }
    if str_eq(name, "org/kwis/msp/handset/BackLight") {
        return Some(stub_proto());
    }
    if str_eq(name, "org/kwis/msp/handset/HandsetProperty") {
        return Some(stub_proto());
    }
    if str_eq(name, "org/kwis/msp/lcdui/Display") {
        return Some(stub_proto());
    }
    if str_eq(name, "org/kwis/msp/lcdui/EventQueue") {
        return Some(stub_proto());
    }
    if str_eq(name, "org/kwis/msp/lcdui/Graphics") {
        return Some(stub_proto());
    }
    if str_eq(name, "org/kwis/msp/lcdui/Main") {
        return Some(stub_proto());
    }
    if str_eq(name, "org/kwis/msp/lcdui/Jlet") {
        return Some(stub_proto());
    }
    if str_eq(name, "org/kwis/msp/lcdui/JletEventListener") {
        return Some(stub_proto());
    }
    if str_eq(name, "org/kwis/msp/lwc/AnnunciatorComponent") {
        return Some(stub_proto());
    }
    if str_eq(name, "org/kwis/msp/lwc/Component") {
        return Some(stub_proto());
    }
    if str_eq(name, "org/kwis/msp/lwc/ContainerComponent") {
        return Some(stub_proto());
    }
    if str_eq(name, "org/kwis/msp/lwc/ShellComponent") {
        return Some(stub_proto());
    }
    if str_eq(name, "org/kwis/msp/lwc/TextComponent") {
        return Some(stub_proto());
    }
    if str_eq(name, "org/kwis/msp/lwc/TextFieldComponent") {
        return Some(stub_proto());
    }
    if str_eq(name, "org/kwis/msp/media/Player") {
        return Some(stub_proto());
    }
    if str_eq(name, "org/kwis/msp/media/PlayListener") {
        return Some(stub_proto());
    }
    assert(!builtin_class_names().contains(name@)) by {
        if builtin_class_names().contains(name@) {
            let k = choose|k: int| 0 <= k < builtin_class_names().len() && builtin_class_names()[k] == name@;
        }
    }
    None
}

} // verus!
