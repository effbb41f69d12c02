//! Small verified functions that read or update values through references:
//! lengths, in-place doubling, word search and word replacement.

use vstd::prelude::*;
use vstd::string::StrSliceExecFns;
use vstd::string::StringExecFns;

verus! {

/// Length of a string, read through a shared reference.
pub fn calculate_length(s: &String) -> (n: usize)
    ensures
        n == s@.len(),
{
    s.as_str().unicode_len()
}

/// Length through a reference: the caller keeps the string.
pub fn get_length_ref(s: &String) -> (n: usize)
    ensures
        n == s@.len(),
{
    s.as_str().unicode_len()
}

/// Length by ownership transfer: the string is handed back with its length.
pub fn get_length_own(s: String) -> (r: (String, usize))
    ensures
        r.0 == s,
        r.1 == s@.len(),
{
    let length = s.as_str().unicode_len();
    (s, length)
}

/// Append a fixed greeting tail through a mutable reference.
pub fn change(s: &mut String)
    ensures
        final(s)@ == old(s)@ + ", world"@,
{
    s.append(", world")
}

/// Build an owned string inside the function and move it out: nothing
/// dangles.
pub fn no_dangle() -> (s: String)
    ensures
        s@ == "hello"@,
{
    String::from_str("hello")
}

/// The longest space-free prefix of `s`: everything up to the first space,
/// or the whole string if it has none.
pub fn first_word(s: &String) -> (r: &str)
    ensures
        r@.len() <= s@.len(),
        r@ == s@.subrange(0, r@.len() as int),
        forall|k: int| 0 <= k < r@.len() ==> s@[k] != ' ',
        r@.len() < s@.len() ==> s@[r@.len() as int] == ' ',
{
    let st = s.as_str();
    let n = st.unicode_len();
    let mut i: usize = 0;
    while i < n
        invariant
            i <= n,
            n == st@.len(),
            st@ == s@,
            forall|k: int| 0 <= k < i ==> s@[k] != ' ',
        decreases n - i,
    {
        let c = st.get_char(i);
        if c == ' ' {
            let r = st.substring_char(0, i);
            return r;
        }
        i = i + 1;
    }
    proof {
        assert(st@ =~= s@.subrange(0, st@.len() as int));
    }
    st
}

/// Double every element in place.
pub fn double_values(nums: &mut Vec<i32>)
    requires
        forall|k: int|
            0 <= k < old(nums)@.len() ==> i32::MIN <= 2 * (#[trigger] old(nums)@[k]) <= i32::MAX,
    ensures
        final(nums)@.len() == old(nums)@.len(),
        forall|k: int|
            0 <= k < old(nums)@.len() ==> #[trigger] final(nums)@[k] == 2 * old(nums)@[k],
{
    let n = nums.len();
    let mut i: usize = 0;
    while i < n
        invariant
            i <= n,
            n == nums@.len(),
            nums@.len() == old(nums)@.len(),
            forall|k: int| 0 <= k < i ==> #[trigger] nums@[k] == 2 * old(nums)@[k],
            forall|k: int| i <= k < n ==> #[trigger] nums@[k] == old(nums)@[k],
            forall|k: int|
                0 <= k < old(nums)@.len() ==> i32::MIN <= 2 * (#[trigger] old(nums)@[k])
                    <= i32::MAX,
        decreases n - i,
    {
        let v = nums[i];
        nums[i] = v * 2;
        i = i + 1;
    }
}

/// `w` occurs in `t` as a contiguous run of characters.
pub open spec fn contains_seq(t: Seq<char>, w: Seq<char>) -> bool {
    exists|i: int| 0 <= i <= t.len() - w.len() && #[trigger] t.subrange(i, i + w.len()) == w
}

/// `w` matches the characters of `t` starting at position `i`.
fn matches_at(t: &str, w: &str, i: usize) -> (b: bool)
    requires
        i + w@.len() <= t@.len(),
    ensures
        b == (t@.subrange(i as int, i + w@.len()) == w@),
{
    let m = w.unicode_len();
    // Bounds t@.len() by usize::MAX, so the index sums below cannot overflow.
    let _n = t.unicode_len();
    let mut k: usize = 0;
    while k < m
        invariant
            k <= m,
            m == w@.len(),
            i + m <= t@.len(),
            t@.len() <= usize::MAX,
            forall|q: int| 0 <= q < k ==> t@[i + q] == w@[q],
        decreases m - k,
    {
        if t.get_char(i + k) != w.get_char(k) {
            proof {
                assert(t@.subrange(i as int, i + m)[k as int] == t@[i + k]);
            }
            return false;
        }
        k = k + 1;
    }
    proof {
        assert(t@.subrange(i as int, i + m) =~= w@);
    }
    true
}

/// Whether `word` occurs in `text`.
pub fn contains_word(text: &String, word: &str) -> (b: bool)
    ensures
        b == contains_seq(text@, word@),
{
    let t = text.as_str();
    let n = t.unicode_len();
    let m = word.unicode_len();
    if m > n {
        return false;
    }
    if m == 0 {
        proof {
            assert(text@.subrange(0, 0 + word@.len() as int) =~= word@);
            assert(contains_seq(text@, word@));
        }
        return true;
    }
    let last = n - m;
    let mut i: usize = 0;
    while i <= last
        invariant
            1 <= m <= n,
            n == t@.len(),
            m == word@.len(),
            last == n - m,
            t@ == text@,
            i <= last + 1,
            forall|q: int| 0 <= q < i ==> #[trigger] t@.subrange(q, q + m) != word@,
        decreases last + 1 - i,
    {
        if matches_at(t, word, i) {
            proof {
                assert(0 <= i as int <= t@.len() - word@.len());
            }
            return true;
        }
        i = i + 1;
    }
    proof {
        assert(!contains_seq(text@, word@));
    }
    false
}

/// `t` with every match of `f` replaced by `r`: matches are taken leftmost
/// first and do not overlap; with `f` empty, `r` is inserted before every
/// character and once at the end.
pub open spec fn replace_seq(t: Seq<char>, f: Seq<char>, r: Seq<char>) -> Seq<char>
    decreases t.len(),
{
    if f.len() == 0 {
        if t.len() == 0 {
            r
        } else {
            r + seq![t[0]] + replace_seq(t.skip(1), f, r)
        }
    } else if t.len() < f.len() {
        t
    } else if t.subrange(0, f.len() as int) == f {
        r + replace_seq(t.skip(f.len() as int), f, r)
    } else {
        seq![t[0]] + replace_seq(t.skip(1), f, r)
    }
}

/// Build `replace_seq(t@, f@, r@)` as an owned string.
fn replace_str(t: &str, f: &str, r: &str) -> (out: String)
    ensures
        out@ == replace_seq(t@, f@, r@),
    decreases t@.len(),
{
    let n = t.unicode_len();
    let m = f.unicode_len();
    if m == 0 {
        if n == 0 {
            String::from_str(r)
        } else {
            let mut out = String::from_str(r);
            out.append(t.substring_char(0, 1));
            let rest = replace_str(t.substring_char(1, n), f, r);
            out.append(rest.as_str());
            proof {
                assert(t@.subrange(1, n as int) =~= t@.skip(1));
                assert(t@.subrange(0, 1) =~= seq![t@[0]]);
                assert(out@ =~= replace_seq(t@, f@, r@));
            }
            out
        }
    } else if n < m {
        String::from_str(t)
    } else if matches_at(t, f, 0) {
        let rest = replace_str(t.substring_char(m, n), f, r);
        let mut out = String::from_str(r);
        out.append(rest.as_str());
        proof {
            assert(t@.subrange(m as int, n as int) =~= t@.skip(m as int));
            assert(out@ =~= replace_seq(t@, f@, r@));
        }
        out
    } else {
        let mut out = String::from_str(t.substring_char(0, 1));
        let rest = replace_str(t.substring_char(1, n), f, r);
        out.append(rest.as_str());
        proof {
            assert(t@.subrange(1, n as int) =~= t@.skip(1));
            assert(t@.subrange(0, 1) =~= seq![t@[0]]);
            assert(out@ =~= replace_seq(t@, f@, r@));
        }
        out
    }
}

/// Replace every match of `from` in `text` by `to`, in place.
pub fn replace_word(text: &mut String, from: &str, to: &str)
    ensures
        final(text)@ == replace_seq(old(text)@, from@, to@),
{
    let out = replace_str(text.as_str(), from, to);
    *text = out;
}

/// A data batch is acceptable when it is non-empty and holds at most ten
/// entries.
pub fn validate_data(data: &Vec<i32>) -> (b: bool)
    ensures
        b == (data@.len() > 0 && data@.len() <= 10),
{
    !data.is_empty() && data.len() <= 10
}

/// Double every entry of a batch in place.
pub fn process_data(data: &mut Vec<i32>)
    requires
        forall|k: int|
            0 <= k < old(data)@.len() ==> i32::MIN <= 2 * (#[trigger] old(data)@[k]) <= i32::MAX,
    ensures
        final(data)@.len() == old(data)@.len(),
        forall|k: int|
            0 <= k < old(data)@.len() ==> #[trigger] final(data)@[k] == 2 * old(data)@[k],
{
    let n = data.len();
    let mut i: usize = 0;
    while i < n
        invariant
            i <= n,
            n == data@.len(),
            data@.len() == old(data)@.len(),
            forall|k: int| 0 <= k < i ==> #[trigger] data@[k] == 2 * old(data)@[k],
            forall|k: int| i <= k < n ==> #[trigger] data@[k] == old(data)@[k],
            forall|k: int|
                0 <= k < old(data)@.len() ==> i32::MIN <= 2 * (#[trigger] old(data)@[k])
                    <= i32::MAX,
        decreases n - i,
    {
        let v = data[i];
        data[i] = v * 2;
        i = i + 1;
    }
}

} // verus!
