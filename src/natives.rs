use vstd::prelude::*;
use crate::java::NativeMethod;
use crate::dispatch::{find_class, find_method, method_triples, resolve};
use crate::classes::{builtin_class_names, builtin_methods};
use crate::scheduler::{Scheduler, Task, wake_time};
use crate::jvm::{JavaTask, Database, FieldView, JavaError, JavaValue, Jvm, ObjectView, find_field, get_spec, put_spec, lemma_put_then_get};

verus! {

/// Memory that `java.lang.Runtime` reports, in bytes.
pub const REPORTED_MEMORY: i64 = 0x100000;

/// Height that `org.kwis.msp.lcdui.Font` reports, in pixels.
pub const FONT_HEIGHT: i32 = 12;

/// Initial length of a `StringBuffer`'s backing array.
pub const INITIAL_CAPACITY: usize = 16;

/// How deeply host methods may call each other.
pub const MAX_CALL_DEPTH: u32 = 32;

/// The characters as Java `char` values.
pub open spec fn char_values(s: Seq<u16>) -> Seq<JavaValue> {
    Seq::new(s.len(), |i: int| JavaValue::Char(s[i]))
}

/// The bytes as Java `byte` values.
pub open spec fn byte_values(s: Seq<u8>) -> Seq<JavaValue> {
    Seq::new(s.len(), |i: int| JavaValue::Byte(s[i] as i8))
}

/// UTF-16 digits of the natural number `n`, most significant first.
pub open spec fn digits(n: nat) -> Seq<u16>
    decreases n,
{
    if n < 10 {
        seq![(48 + n) as u16]
    } else {
        digits(n / 10).push((48 + n % 10) as u16)
    }
}

/// Decimal form of `n`, as Java's `String.valueOf` writes it.
pub open spec fn decimal(n: int) -> Seq<u16> {
    if n < 0 {
        seq![45u16] + digits((-n) as nat)
    } else {
        digits(n as nat)
    }
}

/// The UTF-16 digits of `n`.
fn digits_of(n: u64) -> (r: Vec<u16>)
    ensures
        r@ == digits(n as nat),
    decreases n,
{
    if n < 10 {
        let mut v: Vec<u16> = Vec::new();
        v.push((48 + n) as u16);
        assert(v@ =~= digits(n as nat));
        v
    } else {
        let mut v = digits_of(n / 10);
        v.push((48 + n % 10) as u16);
        v
    }
}

/// The decimal form of `n`.
pub fn decimal_of(n: i64) -> (r: Vec<u16>)
    ensures
        r@ == decimal(n as int),
{
    if n < 0 {
        let m: u64 = (0 - (n as i128)) as u64;
        let d = digits_of(m);
        let mut v: Vec<u16> = Vec::new();
        v.push(45u16);
        let mut i: usize = 0;
        while i < d.len()
            invariant
                i <= d@.len(),
                v@ == seq![45u16] + d@.subrange(0, i as int),
            decreases d@.len() - i,
        {
            v.push(d[i]);
            i = i + 1;
            assert(v@ =~= seq![45u16] + d@.subrange(0, i as int));
        }
        assert(d@.subrange(0, d@.len() as int) =~= d@);
        v
    } else {
        digits_of(n as u64)
    }
}

fn object_arg(args: &[JavaValue], i: usize) -> (r: Result<usize, JavaError>)
    ensures
        match r {
            Ok(h) => i < args@.len() && args@[i as int] == JavaValue::Object(Some(h)),
            Err(_) => !(i < args@.len() && args@[i as int] is Object && args@[i as int]->Object_0 is Some),
        },
{
    if i >= args.len() {
        return Err(JavaError::InvalidArgument);
    }
    match args[i] {
        JavaValue::Object(Some(h)) => Ok(h),
        JavaValue::Object(None) => Err(JavaError::InvalidReference),
        _ => Err(JavaError::InvalidArgument),
    }
}

fn int_arg(args: &[JavaValue], i: usize) -> (r: Result<i32, JavaError>)
    ensures
        match r {
            Ok(v) => i < args@.len() && args@[i as int] == JavaValue::Int(v),
            Err(e) => e == JavaError::InvalidArgument && !(i < args@.len() && args@[i as int] is Int),
        },
{
    if i >= args.len() {
        return Err(JavaError::InvalidArgument);
    }
    match args[i] {
        JavaValue::Int(v) => Ok(v),
        _ => Err(JavaError::InvalidArgument),
    }
}

/// The value array of `java.lang.String` instance `s`.
pub open spec fn string_array(heap: Seq<ObjectView>, s: usize) -> Option<usize> {
    if s < heap.len() && !heap[s as int].1 {
        match get_spec(heap[s as int].3, "value"@, "[C"@) {
            Some(JavaValue::Object(Some(a))) => if a < heap.len() && heap[a as int].1 {
                Some(a)
            } else {
                None
            },
            _ => None,
        }
    } else {
        None
    }
}

/// Instance `s` is a string holding exactly `text`.
pub open spec fn string_holds(heap: Seq<ObjectView>, s: usize, text: Seq<u16>) -> bool {
    string_array(heap, s) is Some && heap[string_array(heap, s).unwrap() as int].4 == char_values(text)
}

/// Instance `b` has the fields of a `java.lang.StringBuffer`.
pub open spec fn has_buffer_fields(heap: Seq<ObjectView>, b: usize) -> bool {
    &&& b < heap.len()
    &&& !heap[b as int].1
    &&& find_field(heap[b as int].3, "value"@, "[C"@, 0) is Some
    &&& find_field(heap[b as int].3, "count"@, "I"@, 0) is Some
}

/// Backing array and count of `java.lang.StringBuffer` instance `b`.
pub open spec fn buffer_state(heap: Seq<ObjectView>, b: usize) -> Option<(usize, int)> {
    if b < heap.len() && !heap[b as int].1 {
        match (get_spec(heap[b as int].3, "value"@, "[C"@), get_spec(heap[b as int].3, "count"@, "I"@)) {
            (Some(JavaValue::Object(Some(a))), Some(JavaValue::Int(n))) => if a < heap.len() && heap[a as int].1 && 0 <= n
                <= heap[a as int].4.len() {
                Some((a, n as int))
            } else {
                None
            },
            _ => None,
        }
    } else {
        None
    }
}

/// Buffer `b` holds exactly `text`.
pub open spec fn buffer_holds(heap: Seq<ObjectView>, b: usize, text: Seq<u16>) -> bool {
    buffer_state(heap, b) is Some && ({
        let (a, n) = buffer_state(heap, b).unwrap();
        heap[a as int].4.subrange(0, n) == char_values(text)
    })
}

/// What buffer `b` holds, as `char` values.
pub open spec fn buffer_content(heap: Seq<ObjectView>, b: usize) -> Seq<JavaValue> {
    let (a, n) = buffer_state(heap, b).unwrap();
    heap[a as int].4.subrange(0, n)
}

/// Length of buffer `b`'s backing array.
pub open spec fn buffer_capacity(heap: Seq<ObjectView>, b: usize) -> int {
    heap[buffer_state(heap, b).unwrap().0 as int].4.len() as int
}

/// `c` doubled as few times as needed to reach `need`.
pub open spec fn grow_to(c: int, need: int) -> int
    decreases (if c >= need { 0 } else { need - c }),
{
    if c < 1 || c >= need {
        c
    } else {
        grow_to(2 * c, need)
    }
}

/// Length of the backing array that a buffer of length `cap` grows to for
/// `need` characters: the smallest doubling of `cap` (of sixteen when it is
/// empty) that holds them.
pub open spec fn grown_capacity(cap: int, need: int) -> int {
    grow_to(if cap == 0 { 16 } else { cap }, need)
}

/// `n` is 16 doubled zero or more times.
pub open spec fn doubled_from_16(n: int) -> bool
    decreases n,
{
    if n <= 16 {
        n == 16
    } else {
        n % 2 == 0 && doubled_from_16(n / 2)
    }
}

/// `n` is a power of two.
pub open spec fn is_pow2(n: int) -> bool
    decreases n,
{
    if n <= 1 {
        n == 1
    } else {
        n % 2 == 0 && is_pow2(n / 2)
    }
}

/// A backing array grown only by doubling from the initial sixteen has a
/// power-of-two length of at least sixteen.
pub proof fn lemma_buffer_capacity(n: int)
    requires
        doubled_from_16(n),
    ensures
        is_pow2(n),
        n >= 16,
    decreases n,
{
    if n > 16 {
        lemma_buffer_capacity(n / 2);
    } else {
        assert(is_pow2(1));
        assert(is_pow2(2));
        assert(is_pow2(4));
        assert(is_pow2(8));
        assert(is_pow2(16));
    }
}

/// Storing into one field leaves every other field as it was.
proof fn lemma_get_other(fs: Seq<FieldView>, n1: Seq<char>, d1: Seq<char>, v: JavaValue, n2: Seq<char>, d2: Seq<char>)
    requires
        put_spec(fs, n1, d1, v) is Some,
        n1 != n2 || d1 != d2,
    ensures
        get_spec(put_spec(fs, n1, d1, v).unwrap(), n2, d2) == get_spec(fs, n2, d2),
{
    let gs = put_spec(fs, n1, d1, v).unwrap();
    crate::jvm::lemma_find_field(fs, n1, d1, 0);
    crate::jvm::lemma_find_field(fs, n2, d2, 0);
    crate::jvm::lemma_find_field_same_keys(fs, gs, n2, d2, 0);
}

proof fn lemma_value_not_count()
    ensures
        "value"@ != "count"@,
{
    reveal_strlit("value");
    reveal_strlit("count");
    assert("value"@[0] != "count"@[0]);
}

/// What a host method that only reports a value returns, if `m` is one.
pub open spec fn simple_result(j: &Jvm, m: NativeMethod) -> Option<JavaValue> {
    match m {
        NativeMethod::Nop => Some(JavaValue::Void),
        NativeMethod::RuntimeTotalMemory => Some(JavaValue::Long(REPORTED_MEMORY)),
        NativeMethod::RuntimeFreeMemory => Some(JavaValue::Long(REPORTED_MEMORY)),
        NativeMethod::CardGetWidth => Some(JavaValue::Int(j.screen_width)),
        NativeMethod::CardGetHeight => Some(JavaValue::Int(j.screen_height)),
        NativeMethod::CardRepaint => Some(JavaValue::Void),
        NativeMethod::FontGetHeight => Some(JavaValue::Int(FONT_HEIGHT)),
        _ => None,
    }
}

/// The bytes that Java `byte` values stand for (anything else counts as 0).
pub open spec fn bytes_of_values(v: Seq<JavaValue>) -> Seq<u8> {
    Seq::new(
        v.len(),
        |i: int|
            match v[i] {
                JavaValue::Byte(b) => b as u8,
                _ => 0u8,
            },
    )
}

/// `insertRecord(data, offset, count)` can run on instance `b`: the byte
/// range exists, the instance names a database, and no database is full.
pub open spec fn insert_args_ok(j: &Jvm, b: usize, args: Seq<JavaValue>) -> bool {
    &&& args.len() >= 3
    &&& args[0] is Object && args[0]->Object_0 is Some
    &&& args[1] is Int && args[2] is Int
    &&& args[1]->Int_0 >= 0 && args[2]->Int_0 >= 0
    &&& ({
        let a = args[0]->Object_0.unwrap();
        let off = args[1]->Int_0 as int;
        let n = args[2]->Int_0 as int;
        &&& a < j.heap().len() && j.heap()[a as int].1
        &&& off + n <= j.heap()[a as int].4.len()
        &&& forall|k: int| off <= k < off + n ==> (#[trigger] j.heap()[a as int].4[k]) is Byte
    })
    &&& exists|t: Seq<u16>| #[trigger] db_name_of(j.heap(), b, t)
    &&& forall|i: int| 0 <= i < j.databases@.len() ==> (#[trigger] j.databases@[i]).records@.len() < 0x7fff_ffff
}

/// The texts of `us`, one after another.
pub open spec fn concat_all(us: Seq<Seq<u16>>) -> Seq<u16>
    decreases us.len(),
{
    if us.len() == 0 {
        Seq::empty()
    } else {
        concat_all(us.drop_last()) + us.last()
    }
}

/// A buffer that starts empty and to which the texts `us` are appended in
/// turn (each append adding its text after what was there, as
/// `string_buffer_append` states) holds their concatenation; `toString` on
/// it then yields that text.
pub proof fn lemma_appends_concatenate(hs: Seq<Seq<ObjectView>>, b: usize, us: Seq<Seq<u16>>)
    requires
        hs.len() == us.len() + 1,
        buffer_holds(hs[0], b, Seq::empty()),
        forall|i: int|
            0 <= i < us.len() ==> buffer_state(#[trigger] hs[i + 1], b) is Some && buffer_content(hs[i + 1], b) == buffer_content(
                hs[i],
                b,
            ) + char_values(us[i]),
    ensures
        buffer_holds(hs[us.len() as int], b, concat_all(us)),
    decreases us.len(),
{
    if us.len() > 0 {
        let n = us.len() - 1;
        lemma_appends_concatenate(hs.subrange(0, n + 1), b, us.drop_last());
        assert(hs.subrange(0, n + 1)[n] == hs[n]);
        assert(char_values(concat_all(us)) =~= char_values(concat_all(us.drop_last())) + char_values(us[n]));
    } else {
        assert(concat_all(us) =~= Seq::<u16>::empty());
    }
}

/// Two texts with the same `char` values are the same text.
pub proof fn lemma_char_values_injective(a: Seq<u16>, b: Seq<u16>)
    requires
        char_values(a) == char_values(b),
    ensures
        a == b,
{
    assert(char_values(a).len() == a.len());
    assert(char_values(b).len() == b.len());
    assert(a.len() == b.len());
    assert forall|i: int| 0 <= i < a.len() implies a[i] == b[i] by {
        assert(char_values(a)[i] == JavaValue::Char(a[i]));
        assert(char_values(b)[i] == JavaValue::Char(b[i]));
    }
    assert(a =~= b);
}

/// `x` is a `DataBase` instance whose `dbName` field holds `name`.
pub open spec fn new_database_object(j: &Jvm, x: usize, name: JavaValue) -> bool {
    &&& x < j.objects@.len()
    &&& !j.objects@[x as int].is_array
    &&& j.objects@[x as int].class < j.classes@.len()
    &&& j.class_table()[j.objects@[x as int].class as int].0 == "org/kwis/msp/db/DataBase"@
    &&& get_spec(j.heap()[x as int].3, "dbName"@, "Ljava/lang/String;"@) == Some(name)
}

/// What host method `m` does when run on instance `this` with `args`, for
/// the methods whose effect is more than reporting a value.
pub open spec fn native_effect(
    old: &Jvm,
    new: &Jvm,
    m: NativeMethod,
    this: usize,
    args: Seq<JavaValue>,
    r: Result<JavaValue, JavaError>,
    depth: u32,
) -> bool {
    let n = buffer_state(old.heap(), this).unwrap().1;
    match m {
        NativeMethod::StringBufferInit => has_buffer_fields(old.heap(), this) ==> r == Ok::<JavaValue, JavaError>(JavaValue::Void)
            && buffer_holds(new.heap(), this, Seq::empty()) && buffer_capacity(new.heap(), this) == 16,
        NativeMethod::StringBufferAppendString => forall|t: Seq<u16>|
            args.len() > 0 && args[0] is Object && args[0]->Object_0 is Some && #[trigger] string_holds(
                old.heap(),
                args[0]->Object_0.unwrap(),
                t,
            ) && buffer_state(old.heap(), this) is Some && n + t.len() <= 0x7fff_ffff ==> r == Ok::<JavaValue, JavaError>(
                JavaValue::Object(Some(this)),
            ) && buffer_content(new.heap(), this) == buffer_content(old.heap(), this) + char_values(t),
        NativeMethod::StringBufferAppendInteger => args.len() > 0 && args[0] is Int && buffer_state(old.heap(), this) is Some && n
            + decimal(args[0]->Int_0 as int).len() <= 0x7fff_ffff ==> r == Ok::<JavaValue, JavaError>(JavaValue::Object(Some(this)))
            && buffer_content(new.heap(), this) == buffer_content(old.heap(), this) + char_values(decimal(args[0]->Int_0 as int)),
        NativeMethod::StringBufferAppendLong => args.len() > 0 && args[0] is Long && buffer_state(old.heap(), this) is Some && n
            + decimal(args[0]->Long_0 as int).len() <= 0x7fff_ffff ==> r == Ok::<JavaValue, JavaError>(JavaValue::Object(Some(this)))
            && buffer_content(new.heap(), this) == buffer_content(old.heap(), this) + char_values(decimal(args[0]->Long_0 as int)),
        NativeMethod::StringBufferAppendCharacter => args.len() > 0 && args[0] is Char && buffer_state(old.heap(), this) is Some && n
            + 1 <= 0x7fff_ffff ==> r == Ok::<JavaValue, JavaError>(JavaValue::Object(Some(this))) && buffer_content(new.heap(), this)
            == buffer_content(old.heap(), this) + char_values(seq![args[0]->Char_0]),
        NativeMethod::StringBufferToString => forall|t: Seq<u16>|
            #[trigger] buffer_holds(old.heap(), this, t) ==> r is Ok && r->Ok_0 is Object && r->Ok_0->Object_0 is Some && string_holds(
                new.heap(),
                r->Ok_0->Object_0.unwrap(),
                t,
            ),
        NativeMethod::DataBaseInit => args.len() > 0 && args[0] is Object && args[0]->Object_0 is Some && this < old.heap().len()
            && !old.heap()[this as int].1 && find_field(old.heap()[this as int].3, "dbName"@, "Ljava/lang/String;"@, 0) is Some ==> r
            == Ok::<JavaValue, JavaError>(JavaValue::Void) && get_spec(new.heap()[this as int].3, "dbName"@, "Ljava/lang/String;"@)
            == Some(args[0]) && new.databases@ == old.databases@,
        NativeMethod::StringInit => this < old.heap().len() && !old.heap()[this as int].1 && find_field(
            old.heap()[this as int].3,
            "value"@,
            "[C"@,
            0,
        ) is Some ==> r == Ok::<JavaValue, JavaError>(JavaValue::Void) && string_holds(new.heap(), this, Seq::empty()),
        NativeMethod::StringInitChars => forall|t: Seq<u16>|
            args.len() >= 3 && args[0] is Object && args[0]->Object_0 is Some && args[1] is Int && args[2] is Int && args[1]->Int_0 >= 0
                && args[2]->Int_0 >= 0 && args[0]->Object_0.unwrap() < old.heap().len() && old.heap()[args[0]->Object_0.unwrap() as int].1
                && args[1]->Int_0 + args[2]->Int_0 <= old.heap()[args[0]->Object_0.unwrap() as int].4.len() && this < old.heap().len()
                && !old.heap()[this as int].1 && find_field(old.heap()[this as int].3, "value"@, "[C"@, 0) is Some && #[trigger] char_values(t)
                == old.heap()[args[0]->Object_0.unwrap() as int].4.subrange(args[1]->Int_0 as int, args[1]->Int_0 + args[2]->Int_0)
                ==> r == Ok::<JavaValue, JavaError>(JavaValue::Void) && string_holds(new.heap(), this, t),
        NativeMethod::FontGetDefaultFont => depth >= 1 ==> r is Ok && r->Ok_0 is Object && r->Ok_0->Object_0 is Some && ({
            let x = r->Ok_0->Object_0.unwrap();
            &&& x < new.objects@.len()
            &&& !new.objects@[x as int].is_array
            &&& new.objects@[x as int].class < new.classes@.len()
            &&& new.class_table()[new.objects@[x as int].class as int].0 == "org/kwis/msp/lcdui/Font"@
        }),
        NativeMethod::DataBaseOpen => depth >= 1 && args.len() > 0 && args[0] is Object && args[0]->Object_0 is Some ==> r is Ok
            && r->Ok_0 is Object && r->Ok_0->Object_0 is Some && new_database_object(new, r->Ok_0->Object_0.unwrap(), args[0])
            && new.databases@ == old.databases@,
        NativeMethod::DataBaseGetNumberOfRecords => (r is Ok ==> r->Ok_0 is Int && exists|t: Seq<u16>|
            #[trigger] db_name_of(old.heap(), this, t) && find_database(new.database_names(), t, 0) is Some
                && new.databases@[find_database(new.database_names(), t, 0).unwrap()].records@.len() == r->Ok_0->Int_0) && ((exists|
            t: Seq<u16>,
        | #[trigger] db_name_of(old.heap(), this, t)) && (forall|i: int|
            0 <= i < old.databases@.len() ==> (#[trigger] old.databases@[i]).records@.len() <= 0x7fff_ffff) ==> r is Ok),
        NativeMethod::DataBaseInsertRecord => (r is Ok ==> r->Ok_0 is Int && args.len() >= 3 && args[0] is Object && args[0]->Object_0 is Some
            && args[1] is Int && args[2] is Int && args[1]->Int_0 >= 0 && args[2]->Int_0 >= 0 && exists|t: Seq<u16>|
            #[trigger] db_name_of(old.heap(), this, t) && find_database(new.database_names(), t, 0) is Some && ({
                let recs = new.databases@[find_database(new.database_names(), t, 0).unwrap()].records@;
                &&& recs.len() == r->Ok_0->Int_0
                &&& recs[recs.len() - 1]@ == bytes_of_values(
                    old.heap()[args[0]->Object_0.unwrap() as int].4.subrange(
                        args[1]->Int_0 as int,
                        args[1]->Int_0 + args[2]->Int_0,
                    ),
                )
            })) && (insert_args_ok(old, this, args) ==> r is Ok),
        NativeMethod::DataBaseSelectRecord => args.len() > 0 && args[0] is Int && (exists|t: Seq<u16>| #[trigger] db_name_of(old.heap(), this, t))
            ==> exists|t: Seq<u16>|
            #[trigger] db_name_of(old.heap(), this, t) && find_database(new.database_names(), t, 0) is Some && ({
                let recs = new.databases@[find_database(new.database_names(), t, 0).unwrap()].records@;
                let id = args[0]->Int_0 as int;
                &&& 1 <= id <= recs.len() ==> r is Ok && r->Ok_0 is Object && r->Ok_0->Object_0 is Some && r->Ok_0->Object_0.unwrap()
                    < new.heap().len() && new.heap()[r->Ok_0->Object_0.unwrap() as int].4 == byte_values(recs[id - 1]@)
                &&& !(1 <= id <= recs.len()) ==> r == Err::<JavaValue, JavaError>(JavaError::NoSuchRecord)
            }),
        NativeMethod::RuntimeGetRuntime => (old.runtime is Some ==> r == Ok::<JavaValue, JavaError>(JavaValue::Object(old.runtime)))
            && (r is Ok ==> r->Ok_0 is Object && r->Ok_0->Object_0 is Some && new.runtime == r->Ok_0->Object_0),
        _ => true,
    }
}

/// Instance `b`'s `dbName` field holds a string whose text is `t`.
pub open spec fn db_name_of(heap: Seq<ObjectView>, b: usize, t: Seq<u16>) -> bool {
    &&& b < heap.len()
    &&& !heap[b as int].1
    &&& get_spec(heap[b as int].3, "dbName"@, "Ljava/lang/String;"@) is Some
    &&& get_spec(heap[b as int].3, "dbName"@, "Ljava/lang/String;"@).unwrap() is Object
    &&& get_spec(heap[b as int].3, "dbName"@, "Ljava/lang/String;"@).unwrap()->Object_0 is Some
    &&& string_holds(heap, get_spec(heap[b as int].3, "dbName"@, "Ljava/lang/String;"@).unwrap()->Object_0.unwrap(), t)
}

proof fn lemma_find_database(names: Seq<Seq<u16>>, name: Seq<u16>, i: int)
    requires
        0 <= i,
    ensures
        match find_database(names, name, i) {
            Some(k) => i <= k < names.len() && names[k] == name,
            None => forall|j: int| i <= j < names.len() ==> names[j] != name,
        },
    decreases names.len() - i,
{
    if i < names.len() {
        lemma_find_database(names, name, i + 1);
    }
}

proof fn lemma_find_database_push(names: Seq<Seq<u16>>, name: Seq<u16>, i: int)
    requires
        0 <= i <= names.len(),
        find_database(names, name, i) is None,
    ensures
        find_database(names.push(name), name, i) == Some(names.len() as int),
    decreases names.len() - i,
{
    if i < names.len() {
        lemma_find_database_push(names, name, i + 1);
    }
}

/// Index of the first database, from `i` on, named `name`.
pub open spec fn find_database(names: Seq<Seq<u16>>, name: Seq<u16>, i: int) -> Option<int>
    decreases names.len() - i,
{
    if i < 0 || i >= names.len() {
        None
    } else if names[i] == name {
        Some(i)
    } else {
        find_database(names, name, i + 1)
    }
}

impl Jvm {
    /// The characters of string `s`; it fails only when `s` is no string.
    pub fn string_chars(&self, s: usize) -> (r: Result<Vec<u16>, JavaError>)
        ensures
            r is Ok ==> string_holds(self.heap(), s, r->Ok_0@),
            (exists|text: Seq<u16>| string_holds(self.heap(), s, text)) ==> r is Ok,
    {
        let ghost owed = exists|text: Seq<u16>| string_holds(self.heap(), s, text);
        let ghost text0: Seq<u16> = if owed {
            choose|text: Seq<u16>| string_holds(self.heap(), s, text)
        } else {
            Seq::empty()
        };
        proof {
            if s < self.objects@.len() {
                assert(self.heap()[s as int] == self.objects@[s as int].view());
            }
        }
        let a = match self.get_field(s, "value", "[C")? {
            JavaValue::Object(Some(a)) => a,
            _ => return Err(JavaError::InvalidReference),
        };
        proof {
            if a < self.objects@.len() {
                assert(self.heap()[a as int] == self.objects@[a as int].view());
            }
        }
        let n = self.array_length(a)?;
        let vals = self.load_array(a, 0, n)?;
        proof {
            assert(self.heap()[a as int].4.subrange(0, n as int) =~= self.heap()[a as int].4);
        }
        let mut out: Vec<u16> = Vec::new();
        let mut i: usize = 0;
        while i < vals.len()
            invariant
                i <= vals@.len(),
                out@.len() == i,
                owed ==> vals@ == char_values(text0),
                owed == (exists|text: Seq<u16>| string_holds(self.heap(), s, text)),
                forall|j: int| 0 <= j < i ==> vals@[j] == JavaValue::Char(#[trigger] out@[j]),
            decreases vals@.len() - i,
        {
            match vals[i] {
                JavaValue::Char(c) => out.push(c),
                _ => {
                    assert(!owed);
                    return Err(JavaError::InvalidArgument);
                },
            }
            i = i + 1;
        }
        assert(vals@ =~= char_values(out@));
        assert(self.heap()[a as int] == self.objects@[a as int].view());
        Ok(out)
    }

    /// A new array of `char` holding `text`.
    fn new_char_array(&mut self, text: &[u16]) -> (r: usize)
        requires
            old(self).wf(),
        ensures
            final(self).wf(),
            final(self).keeps_objects(old(self)),
            final(self).extends_classes(old(self)),
            final(self).same_but_heap(old(self)),
            r == old(self).heap().len(),
            final(self).heap().len() == old(self).heap().len() + 1,
            forall|i: int| 0 <= i < old(self).heap().len() ==> final(self).heap()[i] == old(self).heap()[i],
            final(self).heap()[r as int].1,
            final(self).heap()[r as int].3.len() == 0,
            final(self).heap()[r as int].4 == char_values(text@),
    {
        let mut vals: Vec<JavaValue> = Vec::new();
        let mut i: usize = 0;
        while i < text.len()
            invariant
                i <= text@.len(),
                vals@ == char_values(text@.subrange(0, i as int)),
            decreases text@.len() - i,
        {
            vals.push(JavaValue::Char(text[i]));
            i = i + 1;
            assert(vals@ =~= char_values(text@.subrange(0, i as int)));
        }
        assert(text@.subrange(0, text@.len() as int) =~= text@);
        let a = self.instantiate_array("C", text.len());
        let ghost h1 = self.heap();
        assert(h1.len() == self.objects@.len());
        assert(h1[a as int] == self.objects@[a as int].view());
        assert(vals@.len() == text@.len());
        let r = self.store_array(a, 0, vals.as_slice());
        assert(r is Ok);
        assert(self.heap() =~= h1.update(a as int, (h1[a as int].0, h1[a as int].1, h1[a as int].2, h1[a as int].3, vals@)));
        assert(crate::jvm::splice_values(h1[a as int].4, 0, vals@) =~= vals@);
        a
    }

    /// A new `java.lang.String` holding `text`.
    pub fn new_string(&mut self, text: &[u16]) -> (r: Result<usize, JavaError>)
        requires
            old(self).wf(),
        ensures
            final(self).wf(),
            final(self).keeps_objects(old(self)),
            final(self).extends_classes(old(self)),
            final(self).runtime == old(self).runtime,
            final(self).databases@ == old(self).databases@,
            final(self).screen_width == old(self).screen_width,
            final(self).screen_height == old(self).screen_height,
            final(self).redraw_requested == old(self).redraw_requested,
            final(self).heap().len() >= old(self).heap().len(),
            forall|i: int| 0 <= i < old(self).heap().len() ==> final(self).heap()[i] == old(self).heap()[i],
            r is Ok,
            r->Ok_0 >= old(self).heap().len() && string_holds(final(self).heap(), r->Ok_0, text@),
    {
        proof {
            crate::classes::lemma_string_classes();
        }
        let c = self.load_class("java/lang/String")?;
        let s = self.new_instance(c);
        proof {
            let fv = self.classes@[c as int].fields@.map_values(|f: crate::java::JavaFieldProto| f.view());
            assert(self.holds_builtin(c as int, "java/lang/String"@));
            assert(fv == crate::classes::String::fields_spec());
            assert(fv.len() == 1);
            let f0 = self.classes@[c as int].fields@[0];
            assert(self.classes@[c as int].fields@.map_values(|f: crate::java::JavaFieldProto| f.view())[0] == f0.view());
            assert(f0.access_flag != crate::java::JavaFieldAccessFlag::STATIC);
            let k = choose|k: int| 0 <= k < self.heap()[s as int].3.len() && self.heap()[s as int].3[k].0 == f0.name@
                && self.heap()[s as int].3[k].1 == f0.descriptor@;
            crate::jvm::lemma_field_present(self.heap()[s as int].3, "value"@, "[C"@, k);
        }
        let a = self.new_char_array(text);
        let ghost h = self.heap();
        self.put_field(s, "value", "[C", JavaValue::Object(Some(a)))?;
        proof {
            lemma_put_then_get(h[s as int].3, "value"@, "[C"@, JavaValue::Object(Some(a)));
            assert(self.heap()[a as int] == h[a as int]);
        }
        Ok(s)
    }

    /// `StringBuffer.<init>()`: an empty buffer over a new array of sixteen.
    pub fn string_buffer_init(&mut self, this: usize) -> (r: Result<(), JavaError>)
        requires
            old(self).wf(),
        ensures
            final(self).wf(),
            final(self).keeps_objects(old(self)),
            final(self).extends_classes(old(self)),
            final(self).same_but_heap(old(self)),
            final(self).heap().len() >= old(self).heap().len(),
            forall|i: int| 0 <= i < old(self).heap().len() && i != this ==> final(self).heap()[i] == old(self).heap()[i],
            r is Ok ==> buffer_holds(final(self).heap(), this, Seq::empty()) && buffer_capacity(final(self).heap(), this) == 16
                && final(self).heap()[buffer_state(final(self).heap(), this).unwrap().0 as int].4 == Seq::new(
                16,
                |i: int| JavaValue::Char(0),
            ),
            has_buffer_fields(old(self).heap(), this) ==> r is Ok,
    {
        proof {
            if this < self.objects@.len() {
                assert(self.heap()[this as int] == self.objects@[this as int].view());
            }
            reveal_strlit("C");
        }
        let a = self.instantiate_array("C", INITIAL_CAPACITY);
        let ghost h1 = self.heap();
        proof {
            if this < self.objects@.len() {
                assert(h1[this as int] == self.objects@[this as int].view());
            }
        }
        self.put_field(this, "value", "[C", JavaValue::Object(Some(a)))?;
        let ghost h2 = self.heap();
        proof {
            crate::jvm::lemma_put_keeps_fields(h1[this as int].3, "value"@, "[C"@, JavaValue::Object(Some(a)), "count"@, "I"@);
        }
        self.put_field(this, "count", "I", JavaValue::Int(0))?;
        proof {
            assert(self.heap()[a as int].4 =~= Seq::new(16, |i: int| JavaValue::Char(0)));
            lemma_value_not_count();
            lemma_put_then_get(h1[this as int].3, "value"@, "[C"@, JavaValue::Object(Some(a)));
            lemma_put_then_get(h2[this as int].3, "count"@, "I"@, JavaValue::Int(0));
            lemma_get_other(h2[this as int].3, "count"@, "I"@, JavaValue::Int(0), "value"@, "[C"@);
            assert(self.heap()[a as int] == h1[a as int]);
            assert(buffer_state(self.heap(), this) == Some((a, 0int)));
            assert(self.heap()[a as int].4.subrange(0, 0) =~= char_values(Seq::empty()));
        }
        Ok(())
    }

    /// `StringBuffer.<init>(String)`: the buffer takes the string's backing
    /// array itself (not a copy), with the count set to its length.
    pub fn string_buffer_init_with_string(&mut self, this: usize, string: usize) -> (r: Result<(), JavaError>)
        requires
            old(self).wf(),
        ensures
            final(self).wf(),
            final(self).keeps_objects(old(self)),
            final(self).extends_classes(old(self)),
            final(self).same_but_heap(old(self)),
            r is Ok ==> forall|text: Seq<u16>| string_holds(old(self).heap(), string, text) ==> buffer_holds(final(self).heap(), this, text),
            r is Ok ==> string_array(old(self).heap(), string) is Some && buffer_state(final(self).heap(), this) == Some(
                (
                    string_array(old(self).heap(), string).unwrap(),
                    old(self).heap()[string_array(old(self).heap(), string).unwrap() as int].4.len() as int,
                ),
            ),
            has_buffer_fields(old(self).heap(), this) && string_array(old(self).heap(), string) is Some
                && old(self).heap()[string_array(old(self).heap(), string).unwrap() as int].4.len() <= 0x7fff_ffff ==> r is Ok,
    {
        proof {
            if this < self.objects@.len() {
                assert(self.heap()[this as int] == self.objects@[this as int].view());
            }
            if string < self.objects@.len() {
                assert(self.heap()[string as int] == self.objects@[string as int].view());
            }
            if string_array(self.heap(), string) is Some {
                let a0 = string_array(self.heap(), string).unwrap();
                assert(self.heap()[a0 as int] == self.objects@[a0 as int].view());
            }
        }
        let v = self.get_field(string, "value", "[C")?;
        let a = match v {
            JavaValue::Object(Some(a)) => a,
            _ => return Err(JavaError::InvalidReference),
        };
        let n = self.array_length(a)?;
        if n > 0x7fff_ffff {
            return Err(JavaError::InvalidArgument);
        }
        let ghost h0 = self.heap();
        self.put_field(this, "value", "[C", v)?;
        let ghost h1 = self.heap();
        proof {
            crate::jvm::lemma_put_keeps_fields(h0[this as int].3, "value"@, "[C"@, v, "count"@, "I"@);
            assert(h1.len() == self.objects@.len());
            if this < self.objects@.len() {
                assert(h1[this as int] == self.objects@[this as int].view());
            }
        }
        self.put_field(this, "count", "I", JavaValue::Int(n as i32))?;
        proof {
            lemma_value_not_count();
            lemma_put_then_get(h0[this as int].3, "value"@, "[C"@, v);
            lemma_put_then_get(h1[this as int].3, "count"@, "I"@, JavaValue::Int(n as i32));
            lemma_get_other(h1[this as int].3, "count"@, "I"@, JavaValue::Int(n as i32), "value"@, "[C"@);
            assert(self.heap()[a as int] == h0[a as int]);
            assert(buffer_state(self.heap(), this) == Some((a, n as int)));
            assert(h0[a as int].4.subrange(0, n as int) =~= h0[a as int].4);
        }
        Ok(())
    }

    /// Appends the UTF-16 units `units` to buffer `this`, growing its array
    /// by doubling (from sixteen, when it is empty) until they fit.
    #[verifier::rlimit(50)]
    #[verifier::spinoff_prover]
    pub fn string_buffer_append(&mut self, this: usize, units: &[u16]) -> (r: Result<(), JavaError>)
        requires
            old(self).wf(),
        ensures
            final(self).wf(),
            final(self).keeps_objects(old(self)),
            final(self).extends_classes(old(self)),
            final(self).same_but_heap(old(self)),
            forall|i: int| 0 <= i < old(self).heap().len() && i != this && !old(self).heap()[i].1 ==> final(self).heap()[i] == old(self).heap()[i],
            r is Ok ==> buffer_state(old(self).heap(), this) is Some && buffer_state(final(self).heap(), this) is Some
                && buffer_content(final(self).heap(), this) == buffer_content(old(self).heap(), this) + char_values(units@)
                && (doubled_from_16(buffer_capacity(old(self).heap(), this)) ==> doubled_from_16(buffer_capacity(final(self).heap(), this)))
                && (is_pow2(buffer_capacity(old(self).heap(), this)) ==> is_pow2(buffer_capacity(final(self).heap(), this)))
                && buffer_state(final(self).heap(), this).unwrap().1 <= buffer_capacity(final(self).heap(), this),
            buffer_state(old(self).heap(), this) is Some && buffer_state(old(self).heap(), this).unwrap().1 + units@.len() <= 0x7fff_ffff
                ==> r is Ok,
            r is Ok && buffer_state(old(self).heap(), this).unwrap().1 + units@.len() <= buffer_capacity(old(self).heap(), this)
                ==> buffer_state(final(self).heap(), this).unwrap().0 == buffer_state(old(self).heap(), this).unwrap().0,
            r is Ok && buffer_state(old(self).heap(), this).unwrap().1 + units@.len() > buffer_capacity(old(self).heap(), this)
                ==> buffer_capacity(final(self).heap(), this) == grown_capacity(
                buffer_capacity(old(self).heap(), this),
                buffer_state(old(self).heap(), this).unwrap().1 + units@.len(),
            ),
    {
        proof {
            if this < self.objects@.len() {
                assert(self.heap()[this as int] == self.objects@[this as int].view());
            }
            if buffer_state(self.heap(), this) is Some {
                let a0 = buffer_state(self.heap(), this).unwrap().0;
                assert(self.heap()[a0 as int] == self.objects@[a0 as int].view());
            }
        }
        let n = match self.get_field(this, "count", "I")? {
            JavaValue::Int(n) => n,
            _ => return Err(JavaError::InvalidArgument),
        };
        let a = match self.get_field(this, "value", "[C")? {
            JavaValue::Object(Some(a)) => a,
            _ => return Err(JavaError::InvalidReference),
        };
        let cap = self.array_length(a)?;
        if n < 0 || n as usize > cap {
            return Err(JavaError::InvalidArgument);
        }
        if units.len() > 0x7fff_ffff {
            return Err(JavaError::InvalidArgument);
        }
        let need: u64 = n as u64 + units.len() as u64;
        if need > 0x7fff_ffff {
            return Err(JavaError::InvalidArgument);
        }
        let ghost h0 = self.heap();
        proof {
            assert(buffer_state(h0, this) == Some((a, n as int)));
        }
        let mut vals: Vec<JavaValue> = Vec::new();
        let mut i: usize = 0;
        while i < units.len()
            invariant
                i <= units@.len(),
                vals@ == char_values(units@.subrange(0, i as int)),
            decreases units@.len() - i,
        {
            vals.push(JavaValue::Char(units[i]));
            i = i + 1;
            assert(vals@ =~= char_values(units@.subrange(0, i as int)));
        }
        assert(units@.subrange(0, units@.len() as int) =~= units@);
        let target = if (cap as u64) < need {
            let mut new_cap: u64 = if cap == 0 { INITIAL_CAPACITY as u64 } else { cap as u64 };
            while new_cap < need
                invariant
                    new_cap >= 1,
                    new_cap <= 16 || new_cap < 2 * need,
                    need <= 0x7fff_ffff,
                    cap == 0 || doubled_from_16(cap as int) ==> doubled_from_16(new_cap as int),
                    is_pow2(cap as int) ==> is_pow2(new_cap as int),
                    new_cap >= cap,
                    grow_to(new_cap as int, need as int) == grown_capacity(cap as int, need as int),
                decreases 2 * need - new_cap,
            {
                assert(is_pow2(new_cap as int) ==> is_pow2(new_cap * 2));
                new_cap = new_cap * 2;
            }
            assert(grow_to(new_cap as int, need as int) == new_cap);
            let old_vals = self.load_array(a, 0, cap)?;
            let b = self.instantiate_array("C", new_cap as usize);
            let ghost h1 = self.heap();
            assert(h1.len() == self.objects@.len());
            assert(h1[b as int] == self.objects@[b as int].view());
            self.store_array(b, 0, old_vals.as_slice())?;
            let ghost h2 = self.heap();
            self.put_field(this, "value", "[C", JavaValue::Object(Some(b)))?;
            proof {
                lemma_value_not_count();
                lemma_put_then_get(h2[this as int].3, "value"@, "[C"@, JavaValue::Object(Some(b)));
                lemma_get_other(h2[this as int].3, "value"@, "[C"@, JavaValue::Object(Some(b)), "count"@, "I"@);
                assert(h2[this as int] == h0[this as int]);
                assert(self.heap()[b as int] == h2[b as int]);
                assert(old_vals@ =~= h0[a as int].4);
                assert(h2[b as int].4.subrange(0, n as int) =~= h0[a as int].4.subrange(0, n as int));
                assert(buffer_state(self.heap(), this) == Some((b, n as int)));
            }
            b
        } else {
            a
        };
        let ghost h3 = self.heap();
        proof {
            assert(buffer_state(h3, this) == Some((target, n as int)));
            assert(h3.len() == self.objects@.len());
            assert(h3[target as int] == self.objects@[target as int].view());
            assert(h3[target as int].4.subrange(0, n as int) == h0[a as int].4.subrange(0, n as int));
        }
        self.store_array(target, n as usize, vals.as_slice())?;
        let ghost h4 = self.heap();
        self.put_field(this, "count", "I", JavaValue::Int(need as i32))?;
        proof {
            lemma_value_not_count();
            lemma_put_then_get(h4[this as int].3, "count"@, "I"@, JavaValue::Int(need as i32));
            lemma_get_other(h4[this as int].3, "count"@, "I"@, JavaValue::Int(need as i32), "value"@, "[C"@);
            assert(self.heap()[target as int] == h4[target as int]);
            assert(buffer_state(self.heap(), this) == Some((target, need as int)));
            assert(h4[target as int].4.subrange(0, need as int) =~= h3[target as int].4.subrange(0, n as int) + vals@);
        }
        Ok(())
    }

    /// `StringBuffer.toString()`: a new string holding what the buffer holds.
    pub fn string_buffer_to_string(&mut self, this: usize) -> (r: Result<usize, JavaError>)
        requires
            old(self).wf(),
        ensures
            final(self).wf(),
            final(self).keeps_objects(old(self)),
            final(self).extends_classes(old(self)),
            final(self).runtime == old(self).runtime,
            final(self).databases@ == old(self).databases@,
            forall|i: int| 0 <= i < old(self).heap().len() ==> final(self).heap()[i] == old(self).heap()[i],
            r is Ok ==> forall|text: Seq<u16>|
                buffer_holds(old(self).heap(), this, text) ==> string_holds(final(self).heap(), r->Ok_0, text),
            (exists|text: Seq<u16>| buffer_holds(old(self).heap(), this, text)) ==> r is Ok,
    {
        let ghost owed = exists|text: Seq<u16>| buffer_holds(self.heap(), this, text);
        let ghost t0: Seq<u16> = if owed {
            choose|text: Seq<u16>| buffer_holds(self.heap(), this, text)
        } else {
            Seq::empty()
        };
        proof {
            if owed {
                assert(self.heap()[this as int] == self.objects@[this as int].view());
                let a0 = buffer_state(self.heap(), this).unwrap().0;
                assert(self.heap()[a0 as int] == self.objects@[a0 as int].view());
            }
        }
        let n = match self.get_field(this, "count", "I")? {
            JavaValue::Int(n) => n,
            _ => return Err(JavaError::InvalidArgument),
        };
        let a = match self.get_field(this, "value", "[C")? {
            JavaValue::Object(Some(a)) => a,
            _ => return Err(JavaError::InvalidReference),
        };
        if n < 0 {
            return Err(JavaError::InvalidArgument);
        }
        let vals = self.load_array(a, 0, n as usize)?;
        let mut text: Vec<u16> = Vec::new();
        let mut i: usize = 0;
        while i < vals.len()
            invariant
                i <= vals@.len(),
                owed ==> vals@ == char_values(t0),
                owed == (exists|text: Seq<u16>| buffer_holds(old(self).heap(), this, text)),
                self.wf(),
                self.heap() == old(self).heap(),
                self.runtime == old(self).runtime,
                self.databases@ == old(self).databases@,
                text@.len() == i,
                forall|j: int| 0 <= j < i ==> vals@[j] == JavaValue::Char(#[trigger] text@[j]),
            decreases vals@.len() - i,
        {
            match vals[i] {
                JavaValue::Char(c) => text.push(c),
                _ => {
                    assert(!owed);
                    return Err(JavaError::InvalidArgument);
                },
            }
            i = i + 1;
        }
        assert(vals@ =~= char_values(text@));
        let ghost h0 = self.heap();
        let s = self.new_string(text.as_slice())?;
        proof {
            assert forall|t: Seq<u16>| buffer_holds(h0, this, t) implies string_holds(self.heap(), s, t) by {
                assert(char_values(t) == char_values(text@));
                assert(t =~= text@) by {
                    assert forall|j: int| 0 <= j < t.len() implies t[j] == text@[j] by {
                        assert(char_values(t)[j] == char_values(text@)[j]);
                    }
                }
            }
        }
        Ok(s)
    }

    pub open spec fn database_names(&self) -> Seq<Seq<u16>> {
        self.databases@.map_values(|d: Database| d.name@)
    }

    /// Index of the database named `name`, created empty if there is none.
    pub fn open_database(&mut self, name: &[u16]) -> (r: usize)
        requires
            old(self).wf(),
        ensures
            final(self).wf(),
            final(self).keeps_objects(old(self)),
            final(self).extends_classes(old(self)),
            final(self).heap() == old(self).heap(),
            final(self).classes@ == old(self).classes@,
            final(self).runtime == old(self).runtime,
            r < final(self).databases@.len(),
            final(self).databases@[r as int].name@ == name@,
            find_database(final(self).database_names(), name@, 0) == Some(r as int),
            forall|i: int| 0 <= i < old(self).databases@.len() ==> final(self).databases@[i] == old(self).databases@[i],
            match find_database(old(self).database_names(), name@, 0) {
                Some(k) => r == k && final(self).databases@ == old(self).databases@,
                None => r == old(self).databases@.len() && final(self).databases@.len() == old(self).databases@.len() + 1
                    && final(self).databases@[r as int].records@.len() == 0
                    && forall|i: int| 0 <= i < old(self).databases@.len() ==> final(self).databases@[i] == old(self).databases@[i],
            },
    {
        let mut k: usize = 0;
        while k < self.databases.len()
            invariant
                k <= self.databases@.len(),
                self.wf(),
                self.heap() == old(self).heap(),
                self.classes@ == old(self).classes@,
                self.runtime == old(self).runtime,
                self.databases@ == old(self).databases@,
                find_database(self.database_names(), name@, 0) == find_database(self.database_names(), name@, k as int),
            decreases self.databases@.len() - k,
        {
            let cand = &self.databases[k].name;
            assert(self.database_names()[k as int] == cand@);
            let mut same = cand.len() == name.len();
            let mut i: usize = 0;
            while same && i < name.len()
                invariant
                    i <= name@.len(),
                    same ==> cand@.len() == name@.len(),
                    same ==> forall|j: int| 0 <= j < i ==> cand@[j] == name@[j],
                    !same ==> cand@.len() != name@.len() || exists|j: int| 0 <= j < i && cand@[j] != name@[j],
                decreases name@.len() - i,
            {
                if cand[i] != name[i] {
                    same = false;
                }
                i = i + 1;
            }
            if same {
                assert(cand@ =~= name@);
                return k;
            }
            assert(cand@ != name@);
            k = k + 1;
        }
        let mut copy: Vec<u16> = Vec::new();
        let mut i: usize = 0;
        while i < name.len()
            invariant
                i <= name@.len(),
                copy@ == name@.subrange(0, i as int),
            decreases name@.len() - i,
        {
            copy.push(name[i]);
            i = i + 1;
            assert(copy@ =~= name@.subrange(0, i as int));
        }
        assert(name@.subrange(0, name@.len() as int) =~= name@);
        let r = self.databases.len();
        let ghost names0 = self.database_names();
        self.databases.push(Database { name: copy, records: Vec::new() });
        proof {
            assert(self.database_names() =~= names0.push(name@));
            lemma_find_database_push(names0, name@, 0);
        }
        r
    }

    /// Appends `record` to database `db`; returns its id, the new count.
    pub fn insert_record(&mut self, db: usize, record: Vec<u8>) -> (r: Result<i32, JavaError>)
        requires
            old(self).wf(),
            db < old(self).databases@.len(),
        ensures
            final(self).wf(),
            final(self).keeps_objects(old(self)),
            final(self).extends_classes(old(self)),
            final(self).heap() == old(self).heap(),
            final(self).classes@ == old(self).classes@,
            final(self).runtime == old(self).runtime,
            final(self).databases@.len() == old(self).databases@.len(),
            old(self).databases@[db as int].records@.len() >= 0x7fff_ffff ==> r == Err::<i32, JavaError>(JavaError::NoSuchRecord)
                && final(self).databases@ == old(self).databases@,
            old(self).databases@[db as int].records@.len() < 0x7fff_ffff ==> ({
                let old_db = old(self).databases@[db as int];
                let new_db = final(self).databases@[db as int];
                &&& r == Ok::<i32, JavaError>((old_db.records@.len() + 1) as i32)
                &&& new_db.name@ == old_db.name@
                &&& new_db.records@.len() == old_db.records@.len() + 1
                &&& forall|i: int| 0 <= i < old_db.records@.len() ==> new_db.records@[i]@ == old_db.records@[i]@
                &&& new_db.records@[old_db.records@.len() as int]@ == record@
                &&& forall|i: int| 0 <= i < old(self).databases@.len() && i != db ==> final(self).databases@[i] == old(self).databases@[i]
                &&& final(self).database_names() == old(self).database_names()
            }),
    {
        if self.databases[db].records.len() >= 0x7fff_ffff {
            return Err(JavaError::NoSuchRecord);
        }
        let mut d = Database { name: Vec::new(), records: Vec::new() };
        self.databases.set_and_swap(db, &mut d);
        let ghost old_d = d;
        d.records.push(record);
        let id = d.records.len() as i32;
        self.databases.set_and_swap(db, &mut d);
        assert(self.database_names() =~= old(self).database_names());
        Ok(id)
    }

    /// The record with id `id` of database `db`.
    pub fn select_record(&self, db: usize, id: i32) -> (r: Result<Vec<u8>, JavaError>)
        requires
            db < self.databases@.len(),
        ensures
            1 <= id <= self.databases@[db as int].records@.len() ==> r is Ok
                && r->Ok_0@ == self.databases@[db as int].records@[id - 1]@,
            !(1 <= id <= self.databases@[db as int].records@.len()) ==> r == Err::<Vec<u8>, JavaError>(JavaError::NoSuchRecord),
    {
        let records = &self.databases[db].records;
        if id < 1 || id as usize > records.len() {
            return Err(JavaError::NoSuchRecord);
        }
        let rec = &records[(id - 1) as usize];
        let mut out: Vec<u8> = Vec::new();
        let mut i: usize = 0;
        while i < rec.len()
            invariant
                i <= rec@.len(),
                out@ == rec@.subrange(0, i as int),
            decreases rec@.len() - i,
        {
            out.push(rec[i]);
            i = i + 1;
            assert(out@ =~= rec@.subrange(0, i as int));
        }
        assert(rec@.subrange(0, rec@.len() as int) =~= rec@);
        Ok(out)
    }

    /// The database that instance `this` names in its `dbName` field.
    fn database_of(&mut self, this: usize) -> (r: Result<usize, JavaError>)
        requires
            old(self).wf(),
        ensures
            final(self).wf(),
            final(self).keeps_objects(old(self)),
            final(self).extends_classes(old(self)),
            final(self).heap() == old(self).heap(),
            final(self).classes@ == old(self).classes@,
            final(self).runtime == old(self).runtime,
            r is Ok ==> r->Ok_0 < final(self).databases@.len(),
            r is Ok ==> exists|t: Seq<u16>| #[trigger] db_name_of(old(self).heap(), this, t) && find_database(final(self).database_names(), t, 0)
                == Some(r->Ok_0 as int),
            (exists|t: Seq<u16>| #[trigger] db_name_of(old(self).heap(), this, t)) ==> r is Ok,
            final(self).databases@.len() >= old(self).databases@.len(),
            forall|i: int| 0 <= i < old(self).databases@.len() ==> final(self).databases@[i] == old(self).databases@[i],
            forall|i: int| old(self).databases@.len() <= i < final(self).databases@.len() ==> final(self).databases@[i].records@.len() == 0,
    {
        proof {
            if this < self.objects@.len() {
                assert(self.heap()[this as int] == self.objects@[this as int].view());
            }
        }
        let name = match self.get_field(this, "dbName", "Ljava/lang/String;")? {
            JavaValue::Object(Some(s)) => s,
            _ => return Err(JavaError::InvalidReference),
        };
        let chars = self.string_chars(name)?;
        proof {
            assert(db_name_of(self.heap(), this, chars@));
        }
        let r = self.open_database(chars.as_slice());
        Ok(r)
    }

    /// Runs host method `m` on instance `this` (ignored by static methods)
    /// with `args`.
    fn invoke(&mut self, m: NativeMethod, this: usize, args: &[JavaValue], depth: u32) -> (r: Result<JavaValue, JavaError>)
        requires
            old(self).wf(),
        ensures
            final(self).wf(),
            final(self).keeps_objects(old(self)),
            final(self).extends_classes(old(self)),
            simple_result(old(self), m) is Some ==> r == Ok::<JavaValue, JavaError>(simple_result(old(self), m).unwrap())
                && final(self).heap() == old(self).heap(),
            m == NativeMethod::CardRepaint ==> final(self).redraw_requested,
            native_effect(old(self), final(self), m, this, args@, r, depth),
        decreases depth, 0int,
    {
        match m {
            NativeMethod::Nop => Ok(JavaValue::Void),
            NativeMethod::StringInit => {
                proof {
                    if this < self.objects@.len() {
                        assert(self.heap()[this as int] == self.objects@[this as int].view());
                    }
                }
                let empty: [u16; 0] = [];
                assert(empty@ =~= Seq::<u16>::empty());
                let a = self.new_char_array(&empty);
                let ghost h1 = self.heap();
                proof {
                    if this < old(self).objects@.len() {
                        assert(h1.len() == self.objects@.len());
                        assert(h1[this as int] == self.objects@[this as int].view());
                    }
                }
                self.put_field(this, "value", "[C", JavaValue::Object(Some(a)))?;
                proof {
                    lemma_put_then_get(h1[this as int].3, "value"@, "[C"@, JavaValue::Object(Some(a)));
                    assert(self.heap()[a as int] == h1[a as int]);
                }
                Ok(JavaValue::Void)
            },
            NativeMethod::StringInitChars => {
                let src = object_arg(args, 0)?;
                let offset = int_arg(args, 1)?;
                let count = int_arg(args, 2)?;
                if offset < 0 || count < 0 {
                    return Err(JavaError::ArrayIndexOutOfBounds);
                }
                proof {
                    if src < self.objects@.len() {
                        assert(self.heap()[src as int] == self.objects@[src as int].view());
                    }
                    if this < self.objects@.len() {
                        assert(self.heap()[this as int] == self.objects@[this as int].view());
                    }
                }
                let vals = self.load_array(src, offset as usize, count as usize)?;
                let a = self.instantiate_array("C", count as usize);
                let ghost h1 = self.heap();
                proof {
                    assert(h1.len() == self.objects@.len());
                    assert(h1[a as int] == self.objects@[a as int].view());
                }
                self.store_array(a, 0, vals.as_slice())?;
                let ghost h2 = self.heap();
                proof {
                    assert(crate::jvm::splice_values(h1[a as int].4, 0, vals@) =~= vals@);
                    if this < old(self).objects@.len() {
                        assert(h2.len() == self.objects@.len());
                        assert(h2[this as int] == self.objects@[this as int].view());
                    }
                }
                self.put_field(this, "value", "[C", JavaValue::Object(Some(a)))?;
                proof {
                    lemma_put_then_get(h2[this as int].3, "value"@, "[C"@, JavaValue::Object(Some(a)));
                    assert(self.heap()[a as int] == h2[a as int]);
                }
                Ok(JavaValue::Void)
            },
            NativeMethod::RuntimeGetRuntime => {
                if let Some(r) = self.runtime {
                    return Ok(JavaValue::Object(Some(r)));
                }
                if depth == 0 {
                    return Err(JavaError::CallDepth);
                }
                let r = self.instantiate_depth("java/lang/Runtime", "()V", &[], depth - 1)?;
                self.runtime = Some(r);
                Ok(JavaValue::Object(Some(r)))
            },
            NativeMethod::RuntimeTotalMemory => Ok(JavaValue::Long(REPORTED_MEMORY)),
            NativeMethod::RuntimeFreeMemory => Ok(JavaValue::Long(REPORTED_MEMORY)),
            NativeMethod::StringBufferInit => {
                self.string_buffer_init(this)?;
                Ok(JavaValue::Void)
            },
            NativeMethod::StringBufferInitWithString => {
                let s = object_arg(args, 0)?;
                self.string_buffer_init_with_string(this, s)?;
                Ok(JavaValue::Void)
            },
            NativeMethod::StringBufferAppendString => {
                let s = object_arg(args, 0)?;
                let text = self.string_chars(s)?;
                proof {
                    assert forall|t: Seq<u16>| #[trigger] string_holds(self.heap(), s, t) implies t == text@ by {
                        lemma_char_values_injective(t, text@);
                    }
                }
                self.string_buffer_append(this, text.as_slice())?;
                Ok(JavaValue::Object(Some(this)))
            },
            NativeMethod::StringBufferAppendInteger => {
                let v = int_arg(args, 0)?;
                let text = decimal_of(v as i64);
                self.string_buffer_append(this, text.as_slice())?;
                Ok(JavaValue::Object(Some(this)))
            },
            NativeMethod::StringBufferAppendLong => {
                if args.len() < 1 {
                    return Err(JavaError::InvalidArgument);
                }
                let v = match args[0] {
                    JavaValue::Long(v) => v,
                    _ => return Err(JavaError::InvalidArgument),
                };
                let text = decimal_of(v);
                self.string_buffer_append(this, text.as_slice())?;
                Ok(JavaValue::Object(Some(this)))
            },
            NativeMethod::StringBufferAppendCharacter => {
                if args.len() < 1 {
                    return Err(JavaError::InvalidArgument);
                }
                let c = match args[0] {
                    JavaValue::Char(c) => c,
                    _ => return Err(JavaError::InvalidArgument),
                };
                let units: [u16; 1] = [c];
                assert(units@ =~= seq![c]);
                self.string_buffer_append(this, &units)?;
                Ok(JavaValue::Object(Some(this)))
            },
            NativeMethod::StringBufferToString => {
                let s = self.string_buffer_to_string(this)?;
                Ok(JavaValue::Object(Some(s)))
            },
            NativeMethod::CardGetWidth => Ok(JavaValue::Int(self.screen_width)),
            NativeMethod::CardGetHeight => Ok(JavaValue::Int(self.screen_height)),
            NativeMethod::CardRepaint => {
                self.redraw_requested = true;
                Ok(JavaValue::Void)
            },
            NativeMethod::FontGetHeight => Ok(JavaValue::Int(FONT_HEIGHT)),
            NativeMethod::FontGetDefaultFont => {
                if depth == 0 {
                    return Err(JavaError::CallDepth);
                }
                let f = self.instantiate_depth("org/kwis/msp/lcdui/Font", "()V", &[], depth - 1)?;
                Ok(JavaValue::Object(Some(f)))
            },
            NativeMethod::DataBaseInit => {
                let name = object_arg(args, 0)?;
                let ghost h0 = self.heap();
                proof {
                    if this < self.objects@.len() {
                        assert(h0[this as int] == self.objects@[this as int].view());
                    }
                }
                self.put_field(this, "dbName", "Ljava/lang/String;", JavaValue::Object(Some(name)))?;
                proof {
                    lemma_put_then_get(h0[this as int].3, "dbName"@, "Ljava/lang/String;"@, JavaValue::Object(Some(name)));
                }
                Ok(JavaValue::Void)
            },
            NativeMethod::DataBaseOpen => {
                let name = object_arg(args, 0)?;
                if depth == 0 {
                    return Err(JavaError::CallDepth);
                }
                let init_args: [JavaValue; 1] = [JavaValue::Object(Some(name))];
                let d = self.instantiate_depth("org/kwis/msp/db/DataBase", "(Ljava/lang/String;)V", &init_args, depth - 1)?;
                Ok(JavaValue::Object(Some(d)))
            },
            NativeMethod::DataBaseGetNumberOfRecords => {
                let ghost dbs0 = self.databases@;
                let db = self.database_of(this)?;
                proof {
                    if db < dbs0.len() {
                        assert(self.databases@[db as int] == dbs0[db as int]);
                    }
                }
                let n = self.databases[db].records.len();
                if n > 0x7fff_ffff {
                    return Err(JavaError::NoSuchRecord);
                }
                Ok(JavaValue::Int(n as i32))
            },
            NativeMethod::DataBaseInsertRecord => {
                let arr = object_arg(args, 0)?;
                let offset = int_arg(args, 1)?;
                let count = int_arg(args, 2)?;
                if offset < 0 || count < 0 {
                    return Err(JavaError::ArrayIndexOutOfBounds);
                }
                proof {
                    if arr < self.objects@.len() {
                        assert(self.heap()[arr as int] == self.objects@[arr as int].view());
                    }
                }
                let vals = self.load_array(arr, offset as usize, count as usize)?;
                let mut bytes: Vec<u8> = Vec::new();
                let mut i: usize = 0;
                while i < vals.len()
                    invariant
                        i <= vals@.len(),
                        self.wf(),
                        *self == *old(self),
                        m == NativeMethod::DataBaseInsertRecord,
                        bytes@ == bytes_of_values(vals@.subrange(0, i as int)),
                        vals@ == old(self).heap()[arr as int].4.subrange(offset as int, offset + count),
                        insert_args_ok(old(self), this, args@) ==> forall|k: int| 0 <= k < vals@.len() ==> (#[trigger] vals@[k]) is Byte,
                    decreases vals@.len() - i,
                {
                    match vals[i] {
                        JavaValue::Byte(b) => bytes.push(b as u8),
                        _ => return Err(JavaError::InvalidArgument),
                    }
                    i = i + 1;
                    assert(bytes@ =~= bytes_of_values(vals@.subrange(0, i as int)));
                }
                assert(vals@.subrange(0, vals@.len() as int) =~= vals@);
                let ghost h0 = self.heap();
                let ghost dbs0 = self.databases@;
                let ghost rec = bytes@;
                let db = self.database_of(this)?;
                let ghost names1 = self.database_names();
                proof {
                    if db < dbs0.len() {
                        assert(self.databases@[db as int] == dbs0[db as int]);
                    }
                }
                let id = self.insert_record(db, bytes)?;
                proof {
                    let t = choose|t: Seq<u16>| #[trigger] db_name_of(h0, this, t) && find_database(names1, t, 0) == Some(db as int);
                    assert(self.database_names() == names1);
                    assert(db_name_of(h0, this, t));
                }
                Ok(JavaValue::Int(id))
            },
            NativeMethod::DataBaseSelectRecord => {
                let id = int_arg(args, 0)?;
                let ghost h0 = self.heap();
                let db = self.database_of(this)?;
                let ghost names1 = self.database_names();
                let ghost dbs1 = self.databases@;
                let record = match self.select_record(db, id) {
                    Err(e) => {
                        proof {
                            let t = choose|t: Seq<u16>| #[trigger] db_name_of(h0, this, t) && find_database(names1, t, 0) == Some(db as int);
                            assert(db_name_of(h0, this, t));
                        }
                        return Err(e);
                    },
                    Ok(rc) => rc,
                };
                let mut vals: Vec<JavaValue> = Vec::new();
                let mut i: usize = 0;
                while i < record.len()
                    invariant
                        i <= record@.len(),
                        vals@ == byte_values(record@.subrange(0, i as int)),
                    decreases record@.len() - i,
                {
                    vals.push(JavaValue::Byte(record[i] as i8));
                    i = i + 1;
                    assert(vals@ =~= byte_values(record@.subrange(0, i as int)));
                }
                assert(record@.subrange(0, record@.len() as int) =~= record@);
                let a = self.instantiate_array("B", record.len());
                let ghost h1 = self.heap();
                proof {
                    assert(h1.len() == self.objects@.len());
                    assert(h1[a as int] == self.objects@[a as int].view());
                }
                self.store_array(a, 0, vals.as_slice())?;
                proof {
                    assert(crate::jvm::splice_values(h1[a as int].4, 0, vals@) =~= vals@);
                    let t = choose|t: Seq<u16>| #[trigger] db_name_of(h0, this, t) && find_database(names1, t, 0) == Some(db as int);
                    assert(db_name_of(h0, this, t));
                    assert(self.database_names() == names1);
                    assert(self.databases@ == dbs1);
                }
                Ok(JavaValue::Object(Some(a)))
            },
        }
    }

    fn call_method_depth(&mut self, instance: usize, name: &str, desc: &str, args: &[JavaValue], depth: u32) -> (r: Result<JavaValue, JavaError>)
        requires
            old(self).wf(),
        ensures
            final(self).wf(),
            final(self).keeps_objects(old(self)),
            final(self).extends_classes(old(self)),
            !old(self).is_instance(instance) ==> r == Err::<JavaValue, JavaError>(JavaError::InvalidReference),
            old(self).is_instance(instance) && resolve(old(self).class_table(), old(self).objects@[instance as int].class as int, name@, desc@) is None
                ==> r == Err::<JavaValue, JavaError>(JavaError::NoSuchMethod),
            ({
                let m = resolve(old(self).class_table(), old(self).objects@[instance as int].class as int, name@, desc@);
                old(self).is_instance(instance) && m is Some && simple_result(old(self), m.unwrap()) is Some ==> r
                    == Ok::<JavaValue, JavaError>(simple_result(old(self), m.unwrap()).unwrap())
            }),
            ({
                let m = resolve(old(self).class_table(), old(self).objects@[instance as int].class as int, name@, desc@);
                old(self).is_instance(instance) && m is Some ==> native_effect(old(self), final(self), m.unwrap(), instance, args@, r, depth)
            }),
        decreases depth, 1int,
    {
        if instance >= self.objects.len() || self.objects[instance].is_array {
            return Err(JavaError::InvalidReference);
        }
        let c = self.objects[instance].class;
        match self.resolve_method(c, name, desc) {
            None => Err(JavaError::NoSuchMethod),
            Some(m) => self.invoke(m, instance, args, depth),
        }
    }

    fn instantiate_depth(&mut self, class_name: &str, desc: &str, args: &[JavaValue], depth: u32) -> (r: Result<usize, JavaError>)
        requires
            old(self).wf(),
        ensures
            final(self).wf(),
            final(self).keeps_objects(old(self)),
            final(self).extends_classes(old(self)),
            class_name@ == "org/kwis/msp/db/DataBase"@ && desc@ == "(Ljava/lang/String;)V"@ && args@.len() > 0 && args@[0] is Object
                && args@[0]->Object_0 is Some ==> r is Ok && new_database_object(final(self), r->Ok_0, args@[0])
                && final(self).databases@ == old(self).databases@,
            r is Ok ==> r->Ok_0 < final(self).objects@.len() && !final(self).objects@[r->Ok_0 as int].is_array
                && final(self).objects@[r->Ok_0 as int].class < final(self).classes@.len()
                && final(self).class_table()[final(self).objects@[r->Ok_0 as int].class as int].0 == class_name@,
            class_name@ == "org/kwis/msp/lcdui/Font"@ && desc@ == "()V"@ ==> r is Ok,
        decreases depth, 2int,
    {
        proof {
            crate::classes::lemma_runtime_database_font();
        }
        let c = self.load_class(class_name)?;
        let o = self.new_instance(c);
        assert(self.objects@[o as int].view() == self.heap()[o as int]);
        proof {
            if class_name@ == "org/kwis/msp/db/DataBase"@ && desc@ == "(Ljava/lang/String;)V"@ {
                let cf = self.classes@[c as int].fields@;
                let fv = cf.map_values(|f: crate::java::JavaFieldProto| f.view());
                assert(self.holds_builtin(c as int, "org/kwis/msp/db/DataBase"@));
                assert(fv == crate::classes::DataBase::fields_spec());
                assert(fv.len() == 1);
                assert(fv[0] == cf[0].view());
                assert(cf[0].access_flag != crate::java::JavaFieldAccessFlag::STATIC);
                let fs = self.heap()[o as int].3;
                let k0 = choose|k: int| 0 <= k < fs.len() && fs[k].0 == cf[0].name@ && fs[k].1 == cf[0].descriptor@;
                crate::jvm::lemma_field_present(fs, "dbName"@, "Ljava/lang/String;"@, k0);
                let ms = self.class_table()[c as int].2;
                assert(ms == crate::dispatch::method_triples(crate::classes::DataBase::methods_spec()));
                assert(ms[0] == ("<init>"@, "(Ljava/lang/String;)V"@, NativeMethod::DataBaseInit));
                assert(crate::dispatch::find_method(ms, "<init>"@, "(Ljava/lang/String;)V"@, 0) == Some(0int));
                assert(resolve(self.class_table(), c as int, "<init>"@, "(Ljava/lang/String;)V"@) == Some(NativeMethod::DataBaseInit));
            }
            if class_name@ == "org/kwis/msp/lcdui/Font"@ && desc@ == "()V"@ {
                assert(self.holds_builtin(c as int, "org/kwis/msp/lcdui/Font"@));
                let ms = self.class_table()[c as int].2;
                assert(ms == crate::dispatch::method_triples(crate::classes::Font::methods_spec()));
                assert(ms[0] == ("<init>"@, "()V"@, NativeMethod::Nop));
                assert(crate::dispatch::find_method(ms, "<init>"@, "()V"@, 0) == Some(0int));
                assert(resolve(self.class_table(), c as int, "<init>"@, "()V"@) == Some(NativeMethod::Nop));
            }
            assert(self.class_table()[c as int] == self.classes@[c as int].view());
        }
        let ghost j1 = *self;
        self.call_method_depth(o, "<init>", desc, args, depth)?;
        proof {
            assert(self.objects@[o as int].class == j1.objects@[o as int].class);
            assert(self.classes@[c as int] == j1.classes@[c as int]);
            assert(self.class_table()[c as int] == self.classes@[c as int].view());
            assert(j1.class_table()[c as int] == j1.classes@[c as int].view());
        }
        Ok(o)
    }

    /// Calls method `(name, desc)` of instance `instance`, resolved from its
    /// class up through its parents.
    pub fn call_method(&mut self, instance: usize, name: &str, desc: &str, args: &[JavaValue]) -> (r: Result<JavaValue, JavaError>)
        requires
            old(self).wf(),
        ensures
            final(self).wf(),
            final(self).keeps_objects(old(self)),
            final(self).extends_classes(old(self)),
            !old(self).is_instance(instance) ==> r == Err::<JavaValue, JavaError>(JavaError::InvalidReference),
            old(self).is_instance(instance) && resolve(old(self).class_table(), old(self).objects@[instance as int].class as int, name@, desc@) is None
                ==> r == Err::<JavaValue, JavaError>(JavaError::NoSuchMethod),
            ({
                let m = resolve(old(self).class_table(), old(self).objects@[instance as int].class as int, name@, desc@);
                old(self).is_instance(instance) && m is Some && simple_result(old(self), m.unwrap()) is Some ==> r
                    == Ok::<JavaValue, JavaError>(simple_result(old(self), m.unwrap()).unwrap())
            }),
            ({
                let m = resolve(old(self).class_table(), old(self).objects@[instance as int].class as int, name@, desc@);
                old(self).is_instance(instance) && m is Some ==> native_effect(old(self), final(self), m.unwrap(), instance, args@, r, MAX_CALL_DEPTH)
            }),
    {
        self.call_method_depth(instance, name, desc, args, MAX_CALL_DEPTH)
    }

    /// Calls static method `(name, desc)` of class `class_name`, loading
    /// the class if needed.
    pub fn call_static_method(&mut self, class_name: &str, name: &str, desc: &str, args: &[JavaValue]) -> (r: Result<JavaValue, JavaError>)
        requires
            old(self).wf(),
        ensures
            final(self).wf(),
            final(self).keeps_objects(old(self)),
            final(self).extends_classes(old(self)),
            find_class(old(self).class_table(), class_name@, 0) is None && !builtin_class_names().contains(class_name@) ==> r
                == Err::<JavaValue, JavaError>(JavaError::ClassNotFound) && final(self).classes@ == old(self).classes@,
            find_class(old(self).class_table(), class_name@, 0) matches Some(c) && resolve(old(self).class_table(), c, name@, desc@) is None
                ==> r == Err::<JavaValue, JavaError>(JavaError::NoSuchMethod),
            ({
                let c = find_class(old(self).class_table(), class_name@, 0);
                c is Some && resolve(old(self).class_table(), c.unwrap(), name@, desc@) is Some ==> native_effect(
                    old(self),
                    final(self),
                    resolve(old(self).class_table(), c.unwrap(), name@, desc@).unwrap(),
                    0,
                    args@,
                    r,
                    MAX_CALL_DEPTH,
                )
            }),
            ({
                let ms = builtin_methods(class_name@);
                let k = find_method(method_triples(ms.unwrap()), name@, desc@, 0);
                find_class(old(self).class_table(), class_name@, 0) is None && ms is Some && k is Some ==> native_effect(
                    old(self),
                    final(self),
                    method_triples(ms.unwrap())[k.unwrap()].2,
                    0,
                    args@,
                    r,
                    MAX_CALL_DEPTH,
                )
            }),
    {
        let ghost t0 = self.class_table();
        let loaded = self.classes.len();
        assert(t0.len() == loaded);
        let ghost j0 = *self;
        let c = self.load_class(class_name)?;
        proof {
            crate::dispatch::lemma_find_class(t0, class_name@, 0);
            if find_class(t0, class_name@, 0) is Some {
                assert(self.class_table() == t0);
                assert(self.heap() == j0.heap());
            }
            assert(self.objects@ == j0.objects@);
            assert(self.heap() == j0.heap());
            assert(self.holds_builtin(c as int, class_name@));
            let ms = builtin_methods(class_name@);
            if find_class(t0, class_name@, 0) is None && ms is Some && find_method(method_triples(ms.unwrap()), name@, desc@, 0) is Some {
                assert(self.class_table()[c as int].2 == method_triples(ms.unwrap()));
                crate::dispatch::lemma_find_method_pub(method_triples(ms.unwrap()), name@, desc@, 0);
            }
        }
        match self.resolve_method(c, name, desc) {
            None => Err(JavaError::NoSuchMethod),
            Some(m) => self.invoke(m, 0, args, MAX_CALL_DEPTH),
        }
    }

    /// `spawn`: makes host method `method` on `this` a task of `scheduler`,
    /// ready at the current clock; returns the task's id.
    pub fn spawn(&mut self, scheduler: &mut Scheduler, method: NativeMethod, this: usize) -> (r: u64)
        requires
            old(self).wf(),
            old(scheduler).wf(),
            old(scheduler).next_id < u64::MAX,
        ensures
            final(self).wf(),
            final(scheduler).wf(),
            r == old(scheduler).next_id,
            final(scheduler).ready@ == old(scheduler).ready@.push(Task { id: r, wake: old(scheduler).now }),
            final(scheduler).delayed@ == old(scheduler).delayed@,
            final(self).tasks@ == old(self).tasks@.push(JavaTask { task: r, method, this }),
            final(self).heap() == old(self).heap(),
            final(self).classes@ == old(self).classes@,
    {
        let id = scheduler.spawn();
        self.tasks.push(JavaTask { task: id, method, this });
        id
    }

    /// `sleep`: suspends task `id` for `duration` ticks of `scheduler`.
    pub fn sleep(&self, scheduler: &mut Scheduler, id: u64, duration: u64)
        requires
            old(scheduler).wf(),
        ensures
            final(scheduler).wf(),
            final(scheduler).now == old(scheduler).now,
            final(scheduler).ready@ == old(scheduler).ready@,
            final(scheduler).delayed@ == old(scheduler).delayed@.push(Task { id, wake: wake_time(old(scheduler).now, duration) }),
    {
        scheduler.sleep_for(id, duration);
    }

    /// Runs the spawned host method behind scheduler task `task`, if there
    /// is one; `Ok(None)` when `task` is none of the spawned ones.
    pub fn run_task(&mut self, task: u64) -> (r: Result<Option<JavaValue>, JavaError>)
        requires
            old(self).wf(),
        ensures
            final(self).wf(),
            (forall|k: int| 0 <= k < old(self).tasks@.len() ==> (#[trigger] old(self).tasks@[k]).task != task) <==> r == Ok::<
                Option<JavaValue>,
                JavaError,
            >(None),
    {
        let mut k: usize = 0;
        while k < self.tasks.len()
            invariant
                k <= self.tasks@.len(),
                self.wf(),
                *self == *old(self),
                forall|j: int| 0 <= j < k ==> (#[trigger] old(self).tasks@[j]).task != task,
            decreases self.tasks@.len() - k,
        {
            let t = self.tasks[k];
            if t.task == task {
                self.tasks.remove(k);
                let v = self.invoke(t.method, t.this, &[], MAX_CALL_DEPTH)?;
                return Ok(Some(v));
            }
            k = k + 1;
        }
        Ok(None)
    }

    /// Starts the application whose main class is `main_class` (with `/`
    /// separators): its static `startApp(String[])` with a null argument,
    /// or `startApp()` when the class has no `startApp(String[])`.
    pub fn start_app(&mut self, main_class: &str) -> (r: Result<JavaValue, JavaError>)
        requires
            old(self).wf(),
        ensures
            final(self).wf(),
            final(self).keeps_objects(old(self)),
            final(self).extends_classes(old(self)),
            find_class(old(self).class_table(), main_class@, 0) is None && !builtin_class_names().contains(main_class@) ==> r
                == Err::<JavaValue, JavaError>(JavaError::ClassNotFound),
            ({
                let c = find_class(old(self).class_table(), main_class@, 0);
                let t = old(self).class_table();
                let with_args = resolve(t, c.unwrap(), "startApp"@, "([Ljava/lang/String;)V"@);
                let no_args = resolve(t, c.unwrap(), "startApp"@, "()V"@);
                &&& c is Some && with_args is Some ==> native_effect(
                    old(self),
                    final(self),
                    with_args.unwrap(),
                    0,
                    seq![JavaValue::Object(None)],
                    r,
                    MAX_CALL_DEPTH,
                )
                &&& c is Some && with_args is None && no_args is Some ==> native_effect(
                    old(self),
                    final(self),
                    no_args.unwrap(),
                    0,
                    Seq::empty(),
                    r,
                    MAX_CALL_DEPTH,
                )
                &&& c is Some && with_args is None && no_args is None ==> r == Err::<JavaValue, JavaError>(JavaError::NoSuchMethod)
            }),
    {
        let ghost t0 = self.class_table();
        let loaded = self.classes.len();
        assert(t0.len() == loaded);
        let ghost j0 = *self;
        let c = self.load_class(main_class)?;
        proof {
            crate::dispatch::lemma_find_class(t0, main_class@, 0);
            if find_class(t0, main_class@, 0) is Some {
                assert(self.class_table() == t0);
            }
            assert(self.heap() == j0.heap());
        }
        let with_args: [JavaValue; 1] = [JavaValue::Object(None)];
        assert(with_args@ =~= seq![JavaValue::Object(None)]);
        match self.resolve_method(c, "startApp", "([Ljava/lang/String;)V") {
            Some(m) => self.invoke(m, 0, &with_args, MAX_CALL_DEPTH),
            None => {
                let no_args: [JavaValue; 0] = [];
                assert(no_args@ =~= Seq::<JavaValue>::empty());
                match self.resolve_method(c, "startApp", "()V") {
                    Some(m) => self.invoke(m, 0, &no_args, MAX_CALL_DEPTH),
                    None => Err(JavaError::NoSuchMethod),
                }
            },
        }
    }

    /// `new`: a zeroed instance of `class_name`, on which the `<init>` of
    /// descriptor `desc` has run with `args`.
    pub fn instantiate(&mut self, class_name: &str, desc: &str, args: &[JavaValue]) -> (r: Result<usize, JavaError>)
        requires
            old(self).wf(),
        ensures
            final(self).wf(),
            final(self).keeps_objects(old(self)),
            final(self).extends_classes(old(self)),
            find_class(old(self).class_table(), class_name@, 0) is None && !builtin_class_names().contains(class_name@) ==> r
                == Err::<usize, JavaError>(JavaError::ClassNotFound),
            class_name@ == "java/lang/StringBuffer"@ && desc@ == "()V"@ ==> r is Ok && buffer_holds(
                final(self).heap(),
                r->Ok_0,
                Seq::empty(),
            ) && buffer_capacity(final(self).heap(), r->Ok_0) == 16 && r->Ok_0 < final(self).objects@.len()
                && !final(self).objects@[r->Ok_0 as int].is_array && final(self).objects@[r->Ok_0 as int].class < final(self).classes@.len()
                && final(self).class_table()[final(self).objects@[r->Ok_0 as int].class as int].0 == "java/lang/StringBuffer"@,
            r is Ok ==> r->Ok_0 == old(self).objects@.len() && !final(self).objects@[r->Ok_0 as int].is_array
                && final(self).objects@[r->Ok_0 as int].class < final(self).classes@.len()
                && final(self).class_table()[final(self).objects@[r->Ok_0 as int].class as int].0 == class_name@,
            find_class(old(self).class_table(), class_name@, 0) is Some && resolve(
                old(self).class_table(),
                find_class(old(self).class_table(), class_name@, 0).unwrap(),
                "<init>"@,
                desc@,
            ) is None ==> r == Err::<usize, JavaError>(JavaError::NoSuchMethod),
    {
        let ghost t0 = self.class_table();
        let loaded = self.classes.len();
        assert(t0.len() == loaded);
        proof {
            crate::classes::lemma_string_classes();
        }
        let c = self.load_class(class_name)?;
        proof {
            crate::dispatch::lemma_find_class(t0, class_name@, 0);
            if find_class(t0, class_name@, 0) is Some {
                assert(self.class_table() == t0);
            }
            assert(self.class_table()[c as int] == self.classes@[c as int].view());
        }
        let o = self.new_instance(c);
        assert(self.objects@[o as int].view() == self.heap()[o as int]);
        proof {
            if class_name@ == "java/lang/StringBuffer"@ && desc@ == "()V"@ {
                let cf = self.classes@[c as int].fields@;
                let fv = cf.map_values(|f: crate::java::JavaFieldProto| f.view());
                assert(self.holds_builtin(c as int, "java/lang/StringBuffer"@));
                assert(fv == crate::classes::StringBuffer::fields_spec());
                assert(fv.len() == 2);
                assert(fv[0] == cf[0].view() && fv[1] == cf[1].view());
                assert(cf[0].access_flag != crate::java::JavaFieldAccessFlag::STATIC);
                assert(cf[1].access_flag != crate::java::JavaFieldAccessFlag::STATIC);
                let fs = self.heap()[o as int].3;
                let k0 = choose|k: int| 0 <= k < fs.len() && fs[k].0 == cf[0].name@ && fs[k].1 == cf[0].descriptor@;
                let k1 = choose|k: int| 0 <= k < fs.len() && fs[k].0 == cf[1].name@ && fs[k].1 == cf[1].descriptor@;
                crate::jvm::lemma_field_present(fs, "value"@, "[C"@, k0);
                crate::jvm::lemma_field_present(fs, "count"@, "I"@, k1);
                assert(has_buffer_fields(self.heap(), o));
                let ms = self.class_table()[c as int].2;
                assert(ms == crate::dispatch::method_triples(crate::classes::StringBuffer::methods_spec()));
                assert(ms[0] == ("<init>"@, "()V"@, NativeMethod::StringBufferInit));
                assert(crate::dispatch::find_method(ms, "<init>"@, "()V"@, 0) == Some(0int));
                assert(resolve(self.class_table(), c as int, "<init>"@, "()V"@) == Some(NativeMethod::StringBufferInit));
            }
        }
        let ghost j1 = *self;
        self.call_method_depth(o, "<init>", desc, args, MAX_CALL_DEPTH)?;
        proof {
            assert(self.objects@[o as int].class == j1.objects@[o as int].class);
            assert(self.classes@[c as int] == j1.classes@[c as int]);
            assert(self.class_table()[c as int] == self.classes@[c as int].view());
            assert(j1.class_table()[c as int] == j1.classes@[c as int].view());
        }
        Ok(o)
    }
}

} // verus!
