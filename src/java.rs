use vstd::prelude::*;

verus! {

/// Flags of a method prototype.
#[allow(non_camel_case_types)]
#[derive(Debug, Clone, Copy, PartialEq, Eq, Structural)]
pub enum JavaMethodFlag {
    NONE,
    STATIC,
    NATIVE,
}

/// Access flags of a field prototype.
#[allow(non_camel_case_types)]
#[derive(Debug, Clone, Copy, PartialEq, Eq, Structural)]
pub enum JavaFieldAccessFlag {
    NONE,
    STATIC,
}

/// The host implementation behind a method of a built-in class.
#[derive(Debug, Clone, Copy, PartialEq, Eq, Structural)]
pub enum NativeMethod {
    /// A constructor or method whose only effect is to return normally.
    Nop,
    StringInit,
    StringInitChars,
    RuntimeGetRuntime,
    RuntimeTotalMemory,
    RuntimeFreeMemory,
    StringBufferInit,
    StringBufferInitWithString,
    StringBufferAppendString,
    StringBufferAppendInteger,
    StringBufferAppendLong,
    StringBufferAppendCharacter,
    StringBufferToString,
    CardGetWidth,
    CardGetHeight,
    CardRepaint,
    FontGetHeight,
    FontGetDefaultFont,
    DataBaseInit,
    DataBaseOpen,
    DataBaseGetNumberOfRecords,
    DataBaseInsertRecord,
    DataBaseSelectRecord,
}

/// A method of a built-in class: `(name, descriptor)` is its identity.
pub struct JavaMethodProto {
    pub name: String,
    pub descriptor: String,
    pub body: NativeMethod,
    pub flag: JavaMethodFlag,
}

/// A field of a built-in class: `(name, descriptor)` is its identity.
pub struct JavaFieldProto {
    pub name: String,
    pub descriptor: String,
    pub access_flag: JavaFieldAccessFlag,
}

/// A built-in class: its parent, interfaces, methods and fields.
pub struct JavaClassProto {
    pub parent_class: Option<String>,
    pub interfaces: Vec<String>,
    pub methods: Vec<JavaMethodProto>,
    pub fields: Vec<JavaFieldProto>,
}

impl JavaMethodProto {
    pub open spec fn view(&self) -> (Seq<char>, Seq<char>, NativeMethod, JavaMethodFlag) {
        (self.name@, self.descriptor@, self.body, self.flag)
    }

    pub fn new(name: &str, descriptor: &str, body: NativeMethod, flag: JavaMethodFlag) -> (r: JavaMethodProto)
        ensures
            r.view() == (name@, descriptor@, body, flag),
    {
        JavaMethodProto { name: name.to_owned(), descriptor: descriptor.to_owned(), body, flag }
    }
}

impl JavaFieldProto {
    pub open spec fn view(&self) -> (Seq<char>, Seq<char>, JavaFieldAccessFlag) {
        (self.name@, self.descriptor@, self.access_flag)
    }

    pub fn new(name: &str, descriptor: &str, access_flag: JavaFieldAccessFlag) -> (r: JavaFieldProto)
        ensures
            r.view() == (name@, descriptor@, access_flag),
    {
        JavaFieldProto { name: name.to_owned(), descriptor: descriptor.to_owned(), access_flag }
    }
}

impl JavaClassProto {
    /// The methods' `(name, descriptor, body, flag)` in declaration order.
    pub open spec fn method_table(&self) -> Seq<(Seq<char>, Seq<char>, NativeMethod, JavaMethodFlag)> {
        self.methods@.map_values(|m: JavaMethodProto| m.view())
    }

    /// The fields' `(name, descriptor, flag)` in declaration order.
    pub open spec fn field_table(&self) -> Seq<(Seq<char>, Seq<char>, JavaFieldAccessFlag)> {
        self.fields@.map_values(|f: JavaFieldProto| f.view())
    }

    pub open spec fn parent_name(&self) -> Option<Seq<char>> {
        match self.parent_class {
            Some(p) => Some(p@),
            None => None,
        }
    }
}

/// `a` and `b` hold the same characters.
pub fn str_eq(a: &str, b: &str) -> (r: bool)
    ensures
        r == (a@ == b@),
{
    let x: String = a.to_owned();
    let y: String = b.to_owned();
    x == y
}

} // verus!
