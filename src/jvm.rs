use vstd::prelude::*;
use crate::java::{JavaFieldAccessFlag, JavaFieldProto, JavaMethodProto, NativeMethod, str_eq};

verus! {

/// A Java value. `float` and `double` travel as their raw bit patterns in
/// `Int` and `Long`; an object reference is a handle into the heap.
#[derive(Debug, Clone, Copy, PartialEq, Eq, Structural)]
pub enum JavaValue {
    Void,
    Boolean(bool),
    Byte(i8),
    Char(u16),
    Short(i16),
    Int(i32),
    Long(i64),
    Object(Option<usize>),
}

/// Why a Java-side operation failed; each is fatal to the current task.
#[derive(Debug, Clone, Copy, PartialEq, Eq, Structural)]
pub enum JavaError {
    ClassNotFound,
    /// No method of that name and descriptor in the class or its parents.
    NoSuchMethod,
    /// No field of that name and descriptor in the instance.
    NoSuchField,
    /// A handle that is null, dangling, or of the wrong kind (array or
    /// instance).
    InvalidReference,
    /// An argument of the wrong type or count for a host method.
    InvalidArgument,
    ArrayIndexOutOfBounds,
    /// A record id that the database does not hold.
    NoSuchRecord,
    /// Host methods called each other too deeply.
    CallDepth,
}

/// A field slot of an instance (or a static field of a class).
pub struct Field {
    pub name: String,
    pub descriptor: String,
    pub value: JavaValue,
}

/// `(name, descriptor, value)` of a field slot.
pub type FieldView = (Seq<char>, Seq<char>, JavaValue);

impl Field {
    pub open spec fn view(&self) -> FieldView {
        (self.name@, self.descriptor@, self.value)
    }
}

/// An object of the heap: a class instance with its fields, or an array
/// with its element descriptor and elements.
pub struct HeapObject {
    pub class: usize,
    pub is_array: bool,
    pub element: String,
    pub fields: Vec<Field>,
    pub elements: Vec<JavaValue>,
}

/// `(class, is_array, element descriptor, fields, elements)` of an object.
pub type ObjectView = (usize, bool, Seq<char>, Seq<FieldView>, Seq<JavaValue>);

impl HeapObject {
    pub open spec fn view(&self) -> ObjectView {
        (self.class, self.is_array, self.element@, self.fields@.map_values(|f: Field| f.view()), self.elements@)
    }
}

/// A loaded class; `parent` is the index of its parent class.
pub struct Class {
    pub name: String,
    pub parent: Option<usize>,
    pub methods: Vec<JavaMethodProto>,
    pub fields: Vec<JavaFieldProto>,
}

/// `(name, parent, methods' (name, descriptor, body))` of a class.
pub type ClassView = (Seq<char>, Option<usize>, Seq<(Seq<char>, Seq<char>, NativeMethod)>);

impl Class {
    pub open spec fn view(&self) -> ClassView {
        (self.name@, self.parent, self.methods@.map_values(|m: JavaMethodProto| (m.name@, m.descriptor@, m.body)))
    }
}

/// Index of the first field slot, from `i` on, named `name` with descriptor
/// `desc`.
pub open spec fn find_field(fs: Seq<FieldView>, name: Seq<char>, desc: Seq<char>, i: int) -> Option<int>
    decreases fs.len() - i,
{
    if i < 0 || i >= fs.len() {
        None
    } else if fs[i].0 == name && fs[i].1 == desc {
        Some(i)
    } else {
        find_field(fs, name, desc, i + 1)
    }
}

/// What `get_field` reads from the slots `fs`.
pub open spec fn get_spec(fs: Seq<FieldView>, name: Seq<char>, desc: Seq<char>) -> Option<JavaValue> {
    match find_field(fs, name, desc, 0) {
        Some(k) => Some(fs[k].2),
        None => None,
    }
}

/// The slots `fs` after `put_field` stored `v`.
pub open spec fn put_spec(fs: Seq<FieldView>, name: Seq<char>, desc: Seq<char>, v: JavaValue) -> Option<Seq<FieldView>> {
    match find_field(fs, name, desc, 0) {
        Some(k) => Some(fs.update(k, (fs[k].0, fs[k].1, v))),
        None => None,
    }
}

pub proof fn lemma_find_field(fs: Seq<FieldView>, name: Seq<char>, desc: Seq<char>, i: int)
    requires
        0 <= i,
    ensures
        match find_field(fs, name, desc, i) {
            Some(k) => i <= k < fs.len() && fs[k].0 == name && fs[k].1 == desc,
            None => forall|j: int| i <= j < fs.len() ==> !(fs[j].0 == name && fs[j].1 == desc),
        },
    decreases fs.len() - i,
{
    if i < fs.len() {
        lemma_find_field(fs, name, desc, i + 1);
    }
}

pub proof fn lemma_find_field_same_keys(fs: Seq<FieldView>, gs: Seq<FieldView>, name: Seq<char>, desc: Seq<char>, i: int)
    requires
        fs.len() == gs.len(),
        forall|j: int| 0 <= j < fs.len() ==> fs[j].0 == gs[j].0 && fs[j].1 == gs[j].1,
    ensures
        find_field(fs, name, desc, i) == find_field(gs, name, desc, i),
    decreases fs.len() - i,
{
    if 0 <= i < fs.len() {
        lemma_find_field_same_keys(fs, gs, name, desc, i + 1);
    }
}

/// Storing into a field keeps every slot's name and descriptor, so every
/// field is found where it was.
pub proof fn lemma_put_keeps_fields(fs: Seq<FieldView>, name: Seq<char>, desc: Seq<char>, v: JavaValue, n2: Seq<char>, d2: Seq<char>)
    requires
        put_spec(fs, name, desc, v) is Some,
    ensures
        find_field(put_spec(fs, name, desc, v).unwrap(), n2, d2, 0) == find_field(fs, n2, d2, 0),
{
    let gs = put_spec(fs, name, desc, v).unwrap();
    lemma_find_field(fs, name, desc, 0);
    assert forall|j: int| 0 <= j < fs.len() implies fs[j].0 == gs[j].0 && fs[j].1 == gs[j].1 by {}
    lemma_find_field_same_keys(fs, gs, n2, d2, 0);
}

/// A slot named `name` with descriptor `desc` is found.
pub proof fn lemma_field_present(fs: Seq<FieldView>, name: Seq<char>, desc: Seq<char>, k: int)
    requires
        0 <= k < fs.len(),
        fs[k].0 == name,
        fs[k].1 == desc,
    ensures
        find_field(fs, name, desc, 0) is Some,
{
    lemma_find_field(fs, name, desc, 0);
}

/// Storing a value into a field and reading the same field back yields
/// that value, for every field that the instance has.
pub proof fn lemma_put_then_get(fs: Seq<FieldView>, name: Seq<char>, desc: Seq<char>, v: JavaValue)
    requires
        get_spec(fs, name, desc) is Some,
    ensures
        put_spec(fs, name, desc, v) is Some,
        get_spec(put_spec(fs, name, desc, v).unwrap(), name, desc) == Some(v),
{
    let k = find_field(fs, name, desc, 0).unwrap();
    lemma_find_field(fs, name, desc, 0);
    let gs = put_spec(fs, name, desc, v).unwrap();
    lemma_find_field_same_keys(fs, gs, name, desc, 0);
}

/// The zero value of a field or element of descriptor `d`.
pub open spec fn default_value(d: Seq<char>) -> JavaValue {
    if d.len() == 0 {
        JavaValue::Object(None)
    } else if d[0] == 'Z' {
        JavaValue::Boolean(false)
    } else if d[0] == 'B' {
        JavaValue::Byte(0)
    } else if d[0] == 'C' {
        JavaValue::Char(0)
    } else if d[0] == 'S' {
        JavaValue::Short(0)
    } else if d[0] == 'I' || d[0] == 'F' {
        JavaValue::Int(0)
    } else if d[0] == 'J' || d[0] == 'D' {
        JavaValue::Long(0)
    } else {
        JavaValue::Object(None)
    }
}

/// The zero value of descriptor `d`.
pub fn default_value_of(d: &str) -> (r: JavaValue)
    ensures
        r == default_value(d@),
{
    if d.unicode_len() == 0 {
        return JavaValue::Object(None);
    }
    let c = d.get_char(0);
    if c == 'Z' {
        JavaValue::Boolean(false)
    } else if c == 'B' {
        JavaValue::Byte(0)
    } else if c == 'C' {
        JavaValue::Char(0)
    } else if c == 'S' {
        JavaValue::Short(0)
    } else if c == 'I' || c == 'F' {
        JavaValue::Int(0)
    } else if c == 'J' || c == 'D' {
        JavaValue::Long(0)
    } else {
        JavaValue::Object(None)
    }
}

/// A database of the platform store: its name and its records; record `k`
/// has id `k + 1`.
pub struct Database {
    pub name: Vec<u16>,
    pub records: Vec<Vec<u8>>,
}

/// A host method spawned as a task of its own: scheduler task `task` runs
/// `method` on instance `this`.
#[derive(Debug, Clone, Copy, PartialEq, Eq, Structural)]
pub struct JavaTask {
    pub task: u64,
    pub method: NativeMethod,
    pub this: usize,
}

/// The Java heap, the loaded classes, and the host state that the
/// built-in classes reach (runtime singleton, databases, screen).
pub struct Jvm {
    pub classes: Vec<Class>,
    pub objects: Vec<HeapObject>,
    pub runtime: Option<usize>,
    pub databases: Vec<Database>,
    pub screen_width: i32,
    pub screen_height: i32,
    pub redraw_requested: bool,
    pub tasks: Vec<JavaTask>,
}

/// `s` with `v` written over it from offset `off` on.
pub open spec fn splice_values(s: Seq<JavaValue>, off: int, v: Seq<JavaValue>) -> Seq<JavaValue> {
    s.subrange(0, off) + v + s.subrange(off + v.len(), s.len() as int)
}

impl Jvm {
    pub open spec fn heap(&self) -> Seq<ObjectView> {
        self.objects@.map_values(|o: HeapObject| o.view())
    }

    pub open spec fn class_table(&self) -> Seq<ClassView> {
        self.classes@.map_values(|c: Class| c.view())
    }

    /// Every parent is loaded before its child, every instance's class is
    /// loaded, and every loaded class is the built-in class of its name.
    pub open spec fn wf(&self) -> bool {
        &&& forall|c: int| 0 <= c < self.classes@.len() ==> match (#[trigger] self.classes@[c]).parent {
            Some(p) => p < c,
            None => true,
        }
        &&& forall|o: int| 0 <= o < self.objects@.len() && !(#[trigger] self.objects@[o]).is_array ==> self.objects@[o].class < self.classes@.len()
        &&& forall|c: int| 0 <= c < self.classes@.len() ==> #[trigger] crate::dispatch::class_is_builtin(self.classes@, c, self.classes@[c].name@)
    }

    /// Every object of `old` is still there, of the same kind and class.
    pub open spec fn keeps_objects(&self, old: &Jvm) -> bool {
        &&& old.objects@.len() <= self.objects@.len()
        &&& forall|i: int|
            0 <= i < old.objects@.len() ==> (#[trigger] self.objects@[i]).class == old.objects@[i].class && self.objects@[i].is_array
                == old.objects@[i].is_array
    }

    /// Nothing but the heap changed from `old` to `self`.
    pub open spec fn same_but_heap(&self, old: &Jvm) -> bool {
        &&& self.classes@ == old.classes@
        &&& self.runtime == old.runtime
        &&& self.databases@ == old.databases@
        &&& self.screen_width == old.screen_width
        &&& self.screen_height == old.screen_height
        &&& self.redraw_requested == old.redraw_requested
    }

    /// `obj` is a live class instance.
    pub open spec fn is_instance(&self, obj: usize) -> bool {
        obj < self.objects@.len() && !self.objects@[obj as int].is_array
    }

    /// `arr` is a live array.
    pub open spec fn is_array(&self, arr: usize) -> bool {
        arr < self.objects@.len() && self.objects@[arr as int].is_array
    }

    /// An empty JVM reporting a `width` x `height` screen.
    pub fn new(screen_width: i32, screen_height: i32) -> (r: Jvm)
        ensures
            r.wf(),
            r.classes@.len() == 0,
            r.objects@.len() == 0,
            r.runtime is None,
            r.databases@.len() == 0,
            r.screen_width == screen_width,
            r.screen_height == screen_height,
            !r.redraw_requested,
    {
        Jvm {
            classes: Vec::new(),
            objects: Vec::new(),
            runtime: None,
            databases: Vec::new(),
            screen_width,
            screen_height,
            redraw_requested: false,
            tasks: Vec::new(),
        }
    }

    fn field_index(o: &HeapObject, name: &str, desc: &str) -> (r: Option<usize>)
        ensures
            match r {
                Some(k) => find_field(o.view().3, name@, desc@, 0) == Some(k as int),
                None => find_field(o.view().3, name@, desc@, 0) is None,
            },
    {
        let ghost fs = o.view().3;
        let mut k: usize = 0;
        while k < o.fields.len()
            invariant
                k <= o.fields@.len(),
                fs == o.view().3,
                find_field(fs, name@, desc@, 0) == find_field(fs, name@, desc@, k as int),
            decreases o.fields@.len() - k,
        {
            let f = &o.fields[k];
            assert(fs[k as int] == f.view());
            if str_eq(f.name.as_str(), name) && str_eq(f.descriptor.as_str(), desc) {
                return Some(k);
            }
            k = k + 1;
        }
        None
    }

    /// Reads field `(name, desc)` of instance `obj`.
    pub fn get_field(&self, obj: usize, name: &str, desc: &str) -> (r: Result<JavaValue, JavaError>)
        ensures
            !self.is_instance(obj) ==> r == Err::<JavaValue, JavaError>(JavaError::InvalidReference),
            self.is_instance(obj) ==> match get_spec(self.heap()[obj as int].3, name@, desc@) {
                Some(v) => r == Ok::<JavaValue, JavaError>(v),
                None => r == Err::<JavaValue, JavaError>(JavaError::NoSuchField),
            },
    {
        if obj >= self.objects.len() || self.objects[obj].is_array {
            return Err(JavaError::InvalidReference);
        }
        let o = &self.objects[obj];
        assert(self.heap()[obj as int] == o.view());
        match Self::field_index(o, name, desc) {
            None => Err(JavaError::NoSuchField),
            Some(k) => {
                proof {
                    lemma_find_field(o.view().3, name@, desc@, 0);
                }
                assert(o.view().3[k as int] == o.fields@[k as int].view());
                Ok(o.fields[k].value)
            },
        }
    }

    /// Stores `value` into field `(name, desc)` of instance `obj`; a field
    /// that the instance does not have is an error.
    pub fn put_field(&mut self, obj: usize, name: &str, desc: &str, value: JavaValue) -> (r: Result<(), JavaError>)
        requires
            old(self).wf(),
        ensures
            final(self).wf(),
            final(self).keeps_objects(old(self)),
            final(self).extends_classes(old(self)),
            final(self).same_but_heap(old(self)),
            !old(self).is_instance(obj) ==> r == Err::<(), JavaError>(JavaError::InvalidReference)
                && final(self).heap() == old(self).heap(),
            old(self).is_instance(obj) ==> ({
                let o = old(self).heap()[obj as int];
                match put_spec(o.3, name@, desc@, value) {
                    Some(fs) => r is Ok && final(self).heap() == old(self).heap().update(obj as int, (o.0, o.1, o.2, fs, o.4)),
                    None => r == Err::<(), JavaError>(JavaError::NoSuchField) && final(self).heap() == old(self).heap(),
                }
            }),
    {
        if obj >= self.objects.len() || self.objects[obj].is_array {
            return Err(JavaError::InvalidReference);
        }
        let k = match Self::field_index(&self.objects[obj], name, desc) {
            None => return Err(JavaError::NoSuchField),
            Some(k) => k,
        };
        proof {
            lemma_find_field(self.objects@[obj as int].view().3, name@, desc@, 0);
        }
        let ghost old_o = self.objects@[obj as int];
        let mut o = HeapObject { class: 0, is_array: false, element: String::new(), fields: Vec::new(), elements: Vec::new() };
        self.objects.set_and_swap(obj, &mut o);
        let mut f = Field { name: String::new(), descriptor: String::new(), value: JavaValue::Void };
        o.fields.set_and_swap(k, &mut f);
        f.value = value;
        o.fields.set_and_swap(k, &mut f);
        assert(o.view().3 =~= old_o.view().3.update(k as int, (old_o.view().3[k as int].0, old_o.view().3[k as int].1, value)));
        self.objects.set_and_swap(obj, &mut o);
        assert(self.heap() =~= old(self).heap().update(obj as int, (old_o.view().0, old_o.view().1, old_o.view().2, put_spec(old_o.view().3, name@, desc@, value).unwrap(), old_o.view().4)));
        Ok(())
    }

    /// A new array of `count` zero values of descriptor `element`; returns
    /// its handle.
    pub fn instantiate_array(&mut self, element: &str, count: usize) -> (r: usize)
        requires
            old(self).wf(),
        ensures
            final(self).wf(),
            final(self).keeps_objects(old(self)),
            final(self).extends_classes(old(self)),
            final(self).same_but_heap(old(self)),
            r == old(self).heap().len(),
            final(self).heap() == old(self).heap().push(
                (0usize, true, element@, Seq::empty(), Seq::new(count as nat, |i: int| default_value(element@))),
            ),
    {
        let z = default_value_of(element);
        let mut elements: Vec<JavaValue> = Vec::new();
        let mut i: usize = 0;
        while i < count
            invariant
                i <= count,
                z == default_value(element@),
                elements@ == Seq::new(i as nat, |j: int| default_value(element@)),
            decreases count - i,
        {
            elements.push(z);
            i = i + 1;
            assert(elements@ =~= Seq::new(i as nat, |j: int| default_value(element@)));
        }
        let r = self.objects.len();
        let o = HeapObject { class: 0, is_array: true, element: element.to_owned(), fields: Vec::new(), elements };
        assert(o.view().3 =~= Seq::<FieldView>::empty());
        self.objects.push(o);
        assert(self.heap() =~= old(self).heap().push(o.view()));
        r
    }

    /// Number of elements of array `arr`.
    pub fn array_length(&self, arr: usize) -> (r: Result<usize, JavaError>)
        ensures
            self.is_array(arr) ==> r is Ok && r->Ok_0 as int == self.heap()[arr as int].4.len(),
            !self.is_array(arr) ==> r == Err::<usize, JavaError>(JavaError::InvalidReference),
    {
        if arr >= self.objects.len() || !self.objects[arr].is_array {
            return Err(JavaError::InvalidReference);
        }
        assert(self.heap()[arr as int] == self.objects@[arr as int].view());
        Ok(self.objects[arr].elements.len())
    }

    /// `count` elements of array `arr` from `offset` on.
    pub fn load_array(&self, arr: usize, offset: usize, count: usize) -> (r: Result<Vec<JavaValue>, JavaError>)
        ensures
            !self.is_array(arr) ==> r == Err::<Vec<JavaValue>, JavaError>(JavaError::InvalidReference),
            self.is_array(arr) && offset + count > self.heap()[arr as int].4.len() ==> r == Err::<Vec<JavaValue>, JavaError>(
                JavaError::ArrayIndexOutOfBounds,
            ),
            self.is_array(arr) && offset + count <= self.heap()[arr as int].4.len() ==> r is Ok && r->Ok_0@
                == self.heap()[arr as int].4.subrange(offset as int, offset + count),
    {
        if arr >= self.objects.len() || !self.objects[arr].is_array {
            return Err(JavaError::InvalidReference);
        }
        let o = &self.objects[arr];
        assert(self.heap()[arr as int] == o.view());
        if offset as u128 + count as u128 > o.elements.len() as u128 {
            return Err(JavaError::ArrayIndexOutOfBounds);
        }
        let len = o.elements.len();
        let mut out: Vec<JavaValue> = Vec::new();
        let mut i: usize = 0;
        while i < count
            invariant
                i <= count,
                len == o.elements@.len(),
                offset + count <= len,
                out@ == o.elements@.subrange(offset as int, offset + i),
            decreases count - i,
        {
            out.push(o.elements[offset + i]);
            i = i + 1;
            assert(out@ =~= o.elements@.subrange(offset as int, offset + i));
        }
        Ok(out)
    }

    /// Writes `values` into array `arr` from `offset` on.
    pub fn store_array(&mut self, arr: usize, offset: usize, values: &[JavaValue]) -> (r: Result<(), JavaError>)
        requires
            old(self).wf(),
        ensures
            final(self).wf(),
            final(self).keeps_objects(old(self)),
            final(self).extends_classes(old(self)),
            final(self).same_but_heap(old(self)),
            !old(self).is_array(arr) ==> r == Err::<(), JavaError>(JavaError::InvalidReference)
                && final(self).heap() == old(self).heap(),
            old(self).is_array(arr) ==> ({
                let o = old(self).heap()[arr as int];
                if offset + values@.len() > o.4.len() {
                    r == Err::<(), JavaError>(JavaError::ArrayIndexOutOfBounds) && final(self).heap() == old(self).heap()
                } else {
                    r is Ok && final(self).heap() == old(self).heap().update(
                        arr as int,
                        (o.0, o.1, o.2, o.3, splice_values(o.4, offset as int, values@)),
                    )
                }
            }),
    {
        if arr >= self.objects.len() || !self.objects[arr].is_array {
            return Err(JavaError::InvalidReference);
        }
        assert(self.heap()[arr as int] == self.objects@[arr as int].view());
        let n = values.len();
        if offset as u128 + n as u128 > self.objects[arr].elements.len() as u128 {
            return Err(JavaError::ArrayIndexOutOfBounds);
        }
        let ghost old_o = self.objects@[arr as int];
        let len = self.objects[arr].elements.len();
        let mut o = HeapObject { class: 0, is_array: false, element: String::new(), fields: Vec::new(), elements: Vec::new() };
        self.objects.set_and_swap(arr, &mut o);
        let mut i: usize = 0;
        while i < n
            invariant
                i <= n,
                n == values@.len(),
                len == old_o.elements@.len(),
                offset + n <= len,
                o.class == old_o.class,
                o.is_array == old_o.is_array,
                o.element == old_o.element,
                o.fields == old_o.fields,
                o.elements@.len() == old_o.elements@.len(),
                forall|j: int| 0 <= j < offset ==> o.elements@[j] == old_o.elements@[j],
                forall|j: int| offset <= j < offset + i ==> o.elements@[j] == values@[j - offset],
                forall|j: int| offset + i <= j < old_o.elements@.len() ==> o.elements@[j] == old_o.elements@[j],
            decreases n - i,
        {
            o.elements.set(offset + i, values[i]);
            i = i + 1;
        }
        assert(o.elements@ =~= splice_values(old_o.elements@, offset as int, values@));
        let ghost new_o = o;
        self.objects.set_and_swap(arr, &mut o);
        assert(self.objects@ =~= old(self).objects@.update(arr as int, new_o));
        assert(self.heap() =~= old(self).heap().update(arr as int, new_o.view()));
        Ok(())
    }
}

} // verus!
