use vstd::prelude::*;
use crate::classes::{builtin_class_names, builtin_fields, builtin_methods, builtin_parent, get_class_proto, lemma_builtin_parents};
use crate::java::{JavaFieldAccessFlag, JavaFieldProto, JavaMethodFlag, NativeMethod, str_eq};
use crate::jvm::{Class, ClassView, Field, HeapObject, JavaError, Jvm, default_value, default_value_of};

verus! {

/// Index of the first loaded class, from `i` on, named `name`.
pub open spec fn find_class(classes: Seq<ClassView>, name: Seq<char>, i: int) -> Option<int>
    decreases classes.len() - i,
{
    if i < 0 || i >= classes.len() {
        None
    } else if classes[i].0 == name {
        Some(i)
    } else {
        find_class(classes, name, i + 1)
    }
}

/// Index of the first method, from `i` on, with this name and descriptor.
pub open spec fn find_method(ms: Seq<(Seq<char>, Seq<char>, NativeMethod)>, name: Seq<char>, desc: Seq<char>, i: int) -> Option<int>
    decreases ms.len() - i,
{
    if i < 0 || i >= ms.len() {
        None
    } else if ms[i].0 == name && ms[i].1 == desc {
        Some(i)
    } else {
        find_method(ms, name, desc, i + 1)
    }
}

/// The method that `(name, desc)` resolves to from class `c`: the one that
/// `c` declares, else the one its parent resolves to.
pub open spec fn resolve(classes: Seq<ClassView>, c: int, name: Seq<char>, desc: Seq<char>) -> Option<NativeMethod>
    decreases c,
{
    if c < 0 || c >= classes.len() {
        None
    } else {
        match find_method(classes[c].2, name, desc, 0) {
            Some(m) => Some(classes[c].2[m].2),
            None => match classes[c].1 {
                Some(p) => if p < c {
                    resolve(classes, p as int, name, desc)
                } else {
                    None
                },
                None => None,
            },
        }
    }
}

proof fn lemma_find_method(ms: Seq<(Seq<char>, Seq<char>, NativeMethod)>, name: Seq<char>, desc: Seq<char>, i: int)
    requires
        0 <= i,
    ensures
        match find_method(ms, name, desc, i) {
            Some(k) => i <= k < ms.len() && ms[k].0 == name && ms[k].1 == desc,
            None => forall|j: int| i <= j < ms.len() ==> !(ms[j].0 == name && ms[j].1 == desc),
        },
    decreases ms.len() - i,
{
    if i < ms.len() {
        lemma_find_method(ms, name, desc, i + 1);
    }
}

pub proof fn lemma_find_method_pub(ms: Seq<(Seq<char>, Seq<char>, NativeMethod)>, name: Seq<char>, desc: Seq<char>, i: int)
    requires
        0 <= i,
    ensures
        match find_method(ms, name, desc, i) {
            Some(k) => i <= k < ms.len() && ms[k].0 == name && ms[k].1 == desc,
            None => forall|j: int| i <= j < ms.len() ==> !(ms[j].0 == name && ms[j].1 == desc),
        },
{
    lemma_find_method(ms, name, desc, i);
}

/// Overloads are told apart by descriptor: a class that declares a method
/// with the requested name and descriptor resolves to that very method,
/// whatever other methods share its name; one that declares none resolves
/// the way its parent does.
pub proof fn lemma_method_resolution(classes: Seq<ClassView>, c: int, name: Seq<char>, desc: Seq<char>)
    requires
        0 <= c < classes.len(),
        forall|k: int| 0 <= k < classes.len() && classes[k].1 is Some ==> (classes[k].1->Some_0 as int) < k,
    ensures
        match find_method(classes[c].2, name, desc, 0) {
            Some(m) => classes[c].2[m].0 == name && classes[c].2[m].1 == desc
                && resolve(classes, c, name, desc) == Some(classes[c].2[m].2),
            None => resolve(classes, c, name, desc) == match classes[c].1 {
                Some(p) => resolve(classes, p as int, name, desc),
                None => None::<NativeMethod>,
            },
        },
{
    lemma_find_method(classes[c].2, name, desc, 0);
}

/// `(name, descriptor, body)` of each method of a prototype's table.
pub open spec fn method_triples(t: Seq<(Seq<char>, Seq<char>, NativeMethod, JavaMethodFlag)>) -> Seq<(Seq<char>, Seq<char>, NativeMethod)> {
    Seq::new(t.len(), |i: int| (t[i].0, t[i].1, t[i].2))
}

/// Class `c` of `classes` is the built-in class `name`: its methods and
/// fields are the prototype's, and its parent is the loaded class that the
/// prototype names.
pub open spec fn class_is_builtin(classes: Seq<Class>, c: int, name: Seq<char>) -> bool {
    &&& 0 <= c < classes.len()
    &&& builtin_methods(name) is Some
    &&& builtin_parent(name) is Some
    &&& builtin_fields(name) is Some
    &&& classes[c].name@ == name
    &&& classes[c].view().2 == method_triples(builtin_methods(name).unwrap())
    &&& classes[c].fields@.map_values(|f: JavaFieldProto| f.view()) == builtin_fields(name).unwrap()
    &&& match builtin_parent(name).unwrap() {
        None => classes[c].parent is None,
        Some(p) => classes[c].parent is Some && classes[c].parent.unwrap() < classes.len() && classes[classes[c].parent.unwrap() as int].name@ == p,
    }
}

impl Jvm {
    /// Loaded class `c` is the built-in class `name`.
    pub open spec fn holds_builtin(&self, c: int, name: Seq<char>) -> bool {
        class_is_builtin(self.classes@, c, name)
    }

    /// Index of the loaded class named `name`.
    pub fn find_class(&self, name: &str) -> (r: Option<usize>)
        ensures
            match r {
                Some(c) => find_class(self.class_table(), name@, 0) == Some(c as int),
                None => find_class(self.class_table(), name@, 0) is None,
            },
    {
        let mut k: usize = 0;
        while k < self.classes.len()
            invariant
                k <= self.classes@.len(),
                find_class(self.class_table(), name@, 0) == find_class(self.class_table(), name@, k as int),
            decreases self.classes@.len() - k,
        {
            assert(self.class_table()[k as int] == self.classes@[k as int].view());
            if str_eq(self.classes[k].name.as_str(), name) {
                return Some(k);
            }
            k = k + 1;
        }
        None
    }

    /// The classes of `old` are still loaded, at the same indices.
    pub open spec fn extends_classes(&self, old: &Jvm) -> bool {
        &&& old.classes@.len() <= self.classes@.len()
        &&& forall|i: int| 0 <= i < old.classes@.len() ==> self.classes@[i] == old.classes@[i]
    }

    fn load_class_depth(&mut self, name: &str, depth: u32) -> (r: Result<usize, JavaError>)
        requires
            old(self).wf(),
        ensures
            final(self).wf(),
            final(self).keeps_objects(old(self)),
            final(self).extends_classes(old(self)),
            final(self).extends_classes(old(self)),
            final(self).objects@ == old(self).objects@,
            final(self).runtime == old(self).runtime,
            final(self).databases@ == old(self).databases@,
            final(self).screen_width == old(self).screen_width,
            final(self).screen_height == old(self).screen_height,
            final(self).redraw_requested == old(self).redraw_requested,
            match r {
                Ok(c) => c < final(self).classes@.len() && final(self).class_table()[c as int].0 == name@,
                Err(e) => e == JavaError::ClassNotFound,
            },
            find_class(old(self).class_table(), name@, 0) is Some ==> r == Ok::<usize, JavaError>(
                find_class(old(self).class_table(), name@, 0).unwrap() as usize,
            ) && final(self).classes@ == old(self).classes@,
            find_class(old(self).class_table(), name@, 0) is None && !builtin_class_names().contains(name@) ==> r
                == Err::<usize, JavaError>(JavaError::ClassNotFound) && final(self).classes@ == old(self).classes@,
            find_class(old(self).class_table(), name@, 0) is None && builtin_methods(name@) is Some && (depth >= 1
                || builtin_parent(name@) == Some(None::<Seq<char>>)) ==> r is Ok,
            find_class(old(self).class_table(), name@, 0) is None && r is Ok ==> final(self).holds_builtin(r->Ok_0 as int, name@),
        decreases depth,
    {
        if let Some(c) = self.find_class(name) {
            proof {
                lemma_find_class(self.class_table(), name@, 0);
            }
            return Ok(c);
        }
        let proto = match get_class_proto(name) {
            None => return Err(JavaError::ClassNotFound),
            Some(p) => p,
        };
        proof {
            lemma_builtin_parents(name@);
            lemma_builtin_parents("java/lang/Object"@);
        }
        let parent = match &proto.parent_class {
            None => None,
            Some(p) => {
                if depth == 0 {
                    return Err(JavaError::ClassNotFound);
                }
                let c = self.load_class_depth(p.as_str(), depth - 1)?;
                Some(c)
            },
        };
        let k = self.classes.len();
        let ghost before = self.classes@;
        let ghost mt = proto.method_table();
        let ghost ft = proto.field_table();
        self.classes.push(Class { name: name.to_owned(), parent, methods: proto.methods, fields: proto.fields });
        proof {
            assert forall|c: int| 0 <= c < self.classes@.len() implies match (#[trigger] self.classes@[c]).parent {
                Some(p) => p < c,
                None => true,
            } by {
                if c < k {
                    assert(self.classes@[c] == before[c]);
                }
            }
            assert(self.class_table()[k as int] == self.classes@[k as int].view());
            let cl = self.classes@[k as int];
            assert(cl.view().2 =~= method_triples(mt)) by {
                assert forall|i: int| 0 <= i < cl.methods@.len() implies cl.view().2[i] == method_triples(mt)[i] by {
                    assert(mt[i] == cl.methods@[i].view());
                }
            }
            assert(cl.fields@.map_values(|f: JavaFieldProto| f.view()) =~= ft);
            if let Some(pc) = parent {
                assert(self.class_table()[pc as int] == self.classes@[pc as int].view());
                assert(self.classes@[pc as int] == before[pc as int]);
            }
            assert(class_is_builtin(self.classes@, k as int, self.classes@[k as int].name@));
            assert forall|c: int| 0 <= c < self.classes@.len() implies #[trigger] class_is_builtin(self.classes@, c, self.classes@[c].name@) by {
                if c < k {
                    assert(self.classes@[c] == before[c]);
                    assert(class_is_builtin(before, c, before[c].name@));
                    if let Some(pc) = self.classes@[c].parent {
                        assert(self.classes@[pc as int] == before[pc as int]);
                    }
                }
            }
        }
        Ok(k)
    }

    /// Loads class `name` (and its parents) from the built-in prototypes
    /// unless it is loaded already, and returns its index.
    pub fn load_class(&mut self, name: &str) -> (r: Result<usize, JavaError>)
        requires
            old(self).wf(),
        ensures
            final(self).wf(),
            final(self).keeps_objects(old(self)),
            final(self).extends_classes(old(self)),
            final(self).extends_classes(old(self)),
            final(self).objects@ == old(self).objects@,
            final(self).runtime == old(self).runtime,
            final(self).databases@ == old(self).databases@,
            final(self).screen_width == old(self).screen_width,
            final(self).screen_height == old(self).screen_height,
            final(self).redraw_requested == old(self).redraw_requested,
            match r {
                Ok(c) => c < final(self).classes@.len() && final(self).class_table()[c as int].0 == name@,
                Err(e) => e == JavaError::ClassNotFound,
            },
            find_class(old(self).class_table(), name@, 0) is Some ==> r == Ok::<usize, JavaError>(
                find_class(old(self).class_table(), name@, 0).unwrap() as usize,
            ) && final(self).classes@ == old(self).classes@,
            find_class(old(self).class_table(), name@, 0) is None && !builtin_class_names().contains(name@) ==> r
                == Err::<usize, JavaError>(JavaError::ClassNotFound) && final(self).classes@ == old(self).classes@,
            find_class(old(self).class_table(), name@, 0) is None && builtin_methods(name@) is Some ==> r is Ok,
            r is Ok ==> final(self).holds_builtin(r->Ok_0 as int, name@),
    {
        let r = self.load_class_depth(name, 16);
        proof {
            if r is Ok {
                let c = r->Ok_0 as int;
                assert(self.class_table()[c] == self.classes@[c].view());
                assert(class_is_builtin(self.classes@, c, self.classes@[c].name@));
            }
        }
        r
    }

    /// The method that `(name, desc)` resolves to from class `c`.
    pub fn resolve_method(&self, c: usize, name: &str, desc: &str) -> (r: Option<NativeMethod>)
        requires
            self.wf(),
        ensures
            r == resolve(self.class_table(), c as int, name@, desc@),
    {
        if c >= self.classes.len() {
            return None;
        }
        let mut cur: usize = c;
        loop
            invariant
                self.wf(),
                cur < self.classes@.len(),
                resolve(self.class_table(), c as int, name@, desc@) == resolve(self.class_table(), cur as int, name@, desc@),
            decreases cur,
        {
            let class = &self.classes[cur];
            assert(self.class_table()[cur as int] == class.view());
            let mut m: usize = 0;
            while m < class.methods.len()
                invariant
                    m <= class.methods@.len(),
                    cur < self.classes@.len(),
                    *class == self.classes@[cur as int],
                    class.view() == self.class_table()[cur as int],
                    resolve(self.class_table(), c as int, name@, desc@) == resolve(self.class_table(), cur as int, name@, desc@),
                    find_method(class.view().2, name@, desc@, 0) == find_method(class.view().2, name@, desc@, m as int),
                decreases class.methods@.len() - m,
            {
                let mp = &class.methods[m];
                assert(class.view().2[m as int] == (mp.name@, mp.descriptor@, mp.body));
                if str_eq(mp.name.as_str(), name) && str_eq(mp.descriptor.as_str(), desc) {
                    return Some(mp.body);
                }
                m = m + 1;
            }
            match class.parent {
                None => {
                    return None;
                },
                Some(p) => {
                    cur = p;
                },
            }
        }
    }

    /// A new instance of the loaded class `c`, every field of it and of its
    /// parents at its zero value; `<init>` is not run.
    pub fn new_instance(&mut self, c: usize) -> (r: usize)
        requires
            old(self).wf(),
            c < old(self).classes@.len(),
        ensures
            final(self).wf(),
            final(self).keeps_objects(old(self)),
            final(self).extends_classes(old(self)),
            final(self).same_but_heap(old(self)),
            r == old(self).heap().len(),
            final(self).heap().len() == old(self).heap().len() + 1,
            forall|i: int| 0 <= i < old(self).heap().len() ==> final(self).heap()[i] == old(self).heap()[i],
            final(self).heap()[r as int].0 == c,
            !final(self).heap()[r as int].1,
            forall|k: int| 0 <= k < final(self).heap()[r as int].3.len() ==> (#[trigger] final(self).heap()[r as int].3[k]).2
                == default_value(final(self).heap()[r as int].3[k].1),
            forall|j: int| 0 <= j < old(self).classes@[c as int].fields@.len() && (#[trigger] old(self).classes@[c as int].fields@[j]).access_flag
                != JavaFieldAccessFlag::STATIC ==> exists|k: int| 0 <= k < final(self).heap()[r as int].3.len() && final(self).heap()[r as int].3[k].0
                == old(self).classes@[c as int].fields@[j].name@ && final(self).heap()[r as int].3[k].1
                == old(self).classes@[c as int].fields@[j].descriptor@,
    {
        let mut fields: Vec<Field> = Vec::new();
        let mut cur: usize = c;
        let ghost mut own = false;
        let ghost cf = self.classes@[c as int].fields@;
        loop
            invariant
                self.wf(),
                *self == *old(self),
                cur < self.classes@.len(),
                c < self.classes@.len(),
                cf == self.classes@[c as int].fields@,
                own || cur == c,
                own ==> forall|j: int| 0 <= j < cf.len() && (#[trigger] cf[j]).access_flag != JavaFieldAccessFlag::STATIC ==> exists|k: int|
                    0 <= k < fields@.len() && fields@[k].name@ == cf[j].name@ && fields@[k].descriptor@ == cf[j].descriptor@,
                forall|k: int| 0 <= k < fields@.len() ==> (#[trigger] fields@[k]).value == default_value(fields@[k].descriptor@),
            ensures
                self.wf(),
                *self == *old(self),
                cf == self.classes@[c as int].fields@,
                forall|k: int| 0 <= k < fields@.len() ==> (#[trigger] fields@[k]).value == default_value(fields@[k].descriptor@),
                forall|j: int| 0 <= j < cf.len() && (#[trigger] cf[j]).access_flag != JavaFieldAccessFlag::STATIC ==> exists|k: int|
                    0 <= k < fields@.len() && fields@[k].name@ == cf[j].name@ && fields@[k].descriptor@ == cf[j].descriptor@,
            decreases cur,
        {
            let class = &self.classes[cur];
            let mut i: usize = 0;
            while i < class.fields.len()
                invariant
                    i <= class.fields@.len(),
                    *class == self.classes@[cur as int],
                    forall|k: int| 0 <= k < fields@.len() ==> (#[trigger] fields@[k]).value == default_value(fields@[k].descriptor@),
                    cur == c ==> cf == class.fields@,
                    cur == c ==> forall|j: int| 0 <= j < i && (#[trigger] cf[j]).access_flag != JavaFieldAccessFlag::STATIC ==> exists|k: int|
                        0 <= k < fields@.len() && fields@[k].name@ == cf[j].name@ && fields@[k].descriptor@ == cf[j].descriptor@,
                    own ==> forall|j: int| 0 <= j < cf.len() && (#[trigger] cf[j]).access_flag != JavaFieldAccessFlag::STATIC ==> exists|k: int|
                        0 <= k < fields@.len() && fields@[k].name@ == cf[j].name@ && fields@[k].descriptor@ == cf[j].descriptor@,
                decreases class.fields@.len() - i,
            {
                let f = &class.fields[i];
                if f.access_flag != JavaFieldAccessFlag::STATIC {
                    let v = default_value_of(f.descriptor.as_str());
                    let name = f.name.clone();
                    let descriptor = f.descriptor.clone();
                    let ghost before_push = fields@;
                    fields.push(Field { name, descriptor, value: v });
                    proof {
                        assert forall|k: int| 0 <= k < before_push.len() implies fields@[k] == before_push[k] by {}
                        assert(fields@[before_push.len() as int].name@ == f.name@);
                    }
                }
                i = i + 1;
            }
            proof {
                if cur == c {
                    own = true;
                }
            }
            match class.parent {
                None => {
                    break;
                },
                Some(p) => {
                    cur = p;
                },
            }
        }
        let r = self.objects.len();
        let o = HeapObject { class: c, is_array: false, element: "".to_owned(), fields, elements: Vec::new() };
        let ghost before = self.objects@;
        self.objects.push(o);
        proof {
            assert(self.objects@ == before.push(o));
            assert forall|i: int| 0 <= i < old(self).heap().len() implies self.heap()[i] == old(self).heap()[i] by {
                assert(self.objects@[i] == before[i]);
            }
            assert(self.heap()[r as int] == o.view());
            assert forall|k: int| 0 <= k < o.view().3.len() implies (#[trigger] o.view().3[k]).2 == default_value(o.view().3[k].1) by {
                assert(o.view().3[k] == o.fields@[k].view());
            }
            assert forall|j: int| 0 <= j < cf.len() && (#[trigger] cf[j]).access_flag != JavaFieldAccessFlag::STATIC implies exists|k: int|
                0 <= k < o.view().3.len() && o.view().3[k].0 == cf[j].name@ && o.view().3[k].1 == cf[j].descriptor@ by {
                let k = choose|k: int| 0 <= k < o.fields@.len() && o.fields@[k].name@ == cf[j].name@ && o.fields@[k].descriptor@ == cf[j].descriptor@;
                assert(o.view().3[k] == o.fields@[k].view());
            }
        }
        r
    }
}

/// Loading more classes never changes what a loaded class resolves a
/// method to.
pub proof fn lemma_resolve_kept(a: &Jvm, b: &Jvm, c: int, name: Seq<char>, desc: Seq<char>)
    requires
        a.wf(),
        b.extends_classes(a),
        0 <= c < a.classes@.len(),
    ensures
        resolve(b.class_table(), c, name, desc) == resolve(a.class_table(), c, name, desc),
    decreases c,
{
    assert(b.class_table()[c] == b.classes@[c].view());
    assert(a.class_table()[c] == a.classes@[c].view());
    match a.classes@[c].parent {
        Some(p) => {
            if p < c {
                lemma_resolve_kept(a, b, p as int, name, desc);
            }
        },
        None => {},
    }
}

pub proof fn lemma_find_class(classes: Seq<ClassView>, name: Seq<char>, i: int)
    requires
        0 <= i,
    ensures
        match find_class(classes, name, i) {
            Some(k) => i <= k < classes.len() && classes[k].0 == name,
            None => forall|j: int| i <= j < classes.len() ==> classes[j].0 != name,
        },
    decreases classes.len() - i,
{
    if i < classes.len() {
        lemma_find_class(classes, name, i + 1);
    }
}

} // verus!
