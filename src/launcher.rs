use vstd::prelude::*;
use crate::memory::{GuestMemory, MemoryError, mapping_error, zeros};

verus! {

/// Guest address at which the client binary is loaded.
pub const IMAGE_BASE: u32 = 0x100000;

/// Why the client binary could not be loaded.
#[derive(Debug, Clone, Copy, PartialEq, Eq, Structural)]
pub enum LoadError {
    /// The name does not end in a decimal bss size that fits in 32 bits.
    InvalidName,
    Memory(MemoryError),
}

pub open spec fn is_digit(c: char) -> bool {
    '0' <= c && c <= '9'
}

/// Value of the decimal digits `s`.
pub open spec fn decimal_value(s: Seq<char>) -> int
    decreases s.len(),
{
    if s.len() == 0 {
        0
    } else {
        decimal_value(s.drop_last()) * 10 + (s.last() as int - '0' as int)
    }
}

/// What `str::parse::<u32>` makes of the digits `s` (an optional `+`, then
/// one or more decimal digits, at most `u32::MAX`).
pub open spec fn parse_u32(s: Seq<char>) -> Option<u32> {
    if s.len() > 0 && s[0] == '+' {
        parse_digits(s.subrange(1, s.len() as int))
    } else {
        parse_digits(s)
    }
}

/// Every character of `d` is a decimal digit.
pub open spec fn all_digits(d: Seq<char>) -> bool {
    forall|i: int| 0 <= i < d.len() ==> is_digit(#[trigger] d[i])
}

/// Value of one or more decimal digits that fits in 32 bits.
pub open spec fn parse_digits(d: Seq<char>) -> Option<u32> {
    if d.len() > 0 && all_digits(d) && decimal_value(d) <= u32::MAX {
        Some(decimal_value(d) as u32)
    } else {
        None
    }
}

/// `s` starts with `client.bin`.
pub open spec fn client_bin_name(s: Seq<char>) -> bool {
    s.len() >= 10 && s.subrange(0, 10) == "client.bin"@
}

/// The bss size that a `client.bin<BSS_SIZE>` name carries.
pub open spec fn bss_size_spec(s: Seq<char>) -> Option<u32> {
    if client_bin_name(s) {
        parse_u32(s.subrange(10, s.len() as int))
    } else {
        None
    }
}

proof fn lemma_decimal_grows(s: Seq<char>, i: int, j: int)
    requires
        0 <= i <= j <= s.len(),
        forall|k: int| 0 <= k < s.len() ==> is_digit(#[trigger] s[k]),
    ensures
        decimal_value(s.subrange(0, i)) <= decimal_value(s.subrange(0, j)),
    decreases j - i,
{
    if i < j {
        lemma_decimal_grows(s, i, j - 1);
        assert(s.subrange(0, j).drop_last() =~= s.subrange(0, j - 1));
        assert(decimal_value(s.subrange(0, j - 1)) >= 0) by {
            lemma_decimal_nonneg(s.subrange(0, j - 1));
        }
    }
}

proof fn lemma_decimal_nonneg(s: Seq<char>)
    requires
        forall|k: int| 0 <= k < s.len() ==> is_digit(#[trigger] s[k]),
    ensures
        decimal_value(s) >= 0,
    decreases s.len(),
{
    if s.len() > 0 {
        lemma_decimal_nonneg(s.drop_last());
    }
}

/// `s` starts with `client.bin`.
pub fn is_client_bin(s: &str) -> (r: bool)
    ensures
        r == client_bin_name(s@),
{
    let prefix = "client.bin";
    proof {
        reveal_strlit("client.bin");
    }
    let n = s.unicode_len();
    if n < 10 {
        return false;
    }
    let mut k: usize = 0;
    while k < 10
        invariant
            k <= 10,
            n == s@.len(),
            n >= 10,
            prefix@ == "client.bin"@,
            prefix@.len() == 10,
            forall|j: int| 0 <= j < k ==> s@[j] == prefix@[j],
        decreases 10 - k,
    {
        if s.get_char(k) != prefix.get_char(k) {
            assert(s@.subrange(0, 10)[k as int] != prefix@[k as int]);
            return false;
        }
        k = k + 1;
    }
    assert(s@.subrange(0, 10) =~= prefix@);
    true
}

/// The bss size in a `client.bin<BSS_SIZE>` archive entry name.
pub fn bss_size_of(filename: &str) -> (r: Option<u32>)
    ensures
        r == bss_size_spec(filename@),
{
    if !is_client_bin(filename) {
        return None;
    }
    let n = filename.unicode_len();
    let ghost rest = filename@.subrange(10, n as int);
    let mut start: usize = 10;
    if n > 10 && filename.get_char(10) == '+' {
        start = 11;
    }
    let ghost d = filename@.subrange(start as int, n as int);
    if start == 11 {
        assert(rest.subrange(1, rest.len() as int) =~= d);
    } else {
        assert(rest =~= d);
    }
    assert(bss_size_spec(filename@) == parse_digits(d));
    if start >= n {
        return None;
    }
    let mut value: u64 = 0;
    let mut i: usize = start;
    while i < n
        invariant
            start <= i <= n,
            n == filename@.len(),
            d == filename@.subrange(start as int, n as int),
            d.len() > 0,
            bss_size_spec(filename@) == parse_digits(d),
            value <= u32::MAX,
            forall|k: int| 0 <= k < i - start ==> is_digit(#[trigger] d[k]),
            value == decimal_value(d.subrange(0, i - start)),
        decreases n - i,
    {
        let c = filename.get_char(i);
        if c < '0' || c > '9' {
            assert(!is_digit(d[i - start]));
            return None;
        }
        assert(d.subrange(0, i - start + 1).drop_last() =~= d.subrange(0, i - start));
        let next: u64 = value * 10 + (c as u64 - '0' as u64);
        if next > 0xffff_ffff {
            proof {
                assert(decimal_value(d.subrange(0, i - start + 1)) == next);
                if forall|k: int| 0 <= k < d.len() ==> is_digit(#[trigger] d[k]) {
                    lemma_decimal_grows(d, i - start + 1, d.len() as int);
                    assert(d.subrange(0, d.len() as int) =~= d);
                }
            }
            return None;
        }
        value = next;
        i = i + 1;
    }
    assert(d.subrange(0, d.len() as int) =~= d);
    Some(value as u32)
}

/// Index of the first archive entry named `client.bin...`.
pub fn find_client_bin(names: &Vec<std::string::String>) -> (r: Option<usize>)
    ensures
        match r {
            Some(k) => k < names@.len() && client_bin_name(names@[k as int]@) && forall|j: int|
                0 <= j < k ==> !client_bin_name(#[trigger] names@[j]@),
            None => forall|j: int| 0 <= j < names@.len() ==> !client_bin_name(#[trigger] names@[j]@),
        },
{
    let mut k: usize = 0;
    while k < names.len()
        invariant
            k <= names@.len(),
            forall|j: int| 0 <= j < k ==> !client_bin_name(#[trigger] names@[j]@),
        decreases names@.len() - k,
    {
        if is_client_bin(names[k].as_str()) {
            return Some(k);
        }
        k = k + 1;
    }
    None
}

/// Loads the client binary `data`, found under archive name `filename`, at
/// `IMAGE_BASE`, followed by the zero-filled bss that the name announces;
/// returns the bss size.
pub fn load_client_bin(mem: &mut GuestMemory, data: &[u8], filename: &str) -> (r: Result<u32, LoadError>)
    ensures
        bss_size_spec(filename@) is None ==> r == Err::<u32, LoadError>(LoadError::InvalidName) && final(mem)@ == old(mem)@,
        bss_size_spec(filename@) is Some ==> ({
            let bss = bss_size_spec(filename@).unwrap();
            let total = data@.len() + bss;
            if total > usize::MAX {
                r == Err::<u32, LoadError>(LoadError::Memory(MemoryError::OutOfRange { address: IMAGE_BASE }))
                    && final(mem)@ == old(mem)@
            } else {
                match mapping_error(old(mem)@, IMAGE_BASE, total) {
                    Some(e) => r == Err::<u32, LoadError>(LoadError::Memory(e)) && final(mem)@ == old(mem)@,
                    None => r == Ok::<u32, LoadError>(bss) && final(mem)@ == old(mem)@.push(
                        (IMAGE_BASE as int, data@ + zeros(bss as int)),
                    ),
                }
            }
        }),
{
    let bss = match bss_size_of(filename) {
        None => return Err(LoadError::InvalidName),
        Some(b) => b,
    };
    if data.len() > usize::MAX - (bss as usize) {
        return Err(LoadError::Memory(MemoryError::OutOfRange { address: IMAGE_BASE }));
    }
    let total = data.len() + bss as usize;
    match mem.load(data, IMAGE_BASE, total) {
        Ok(()) => {
            assert(total - data@.len() == bss);
            Ok(bss)
        },
        Err(e) => Err(LoadError::Memory(e)),
    }
}

} // verus!
