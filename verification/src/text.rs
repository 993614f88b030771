//! Whitespace trimming over `Seq<char>` views, used by the draft
//! controller to normalize user input.

use vstd::prelude::*;

verus! {

/// The Unicode `White_Space` code points, as std documents for
/// `char::is_whitespace`.
pub open spec fn is_space_char(c: char) -> bool {
    let u = c as u32;
    ||| u == 0x20
    ||| 0x09 <= u && u <= 0x0D
    ||| u == 0x85
    ||| u == 0xA0
    ||| u == 0x1680
    ||| 0x2000 <= u && u <= 0x200A
    ||| u == 0x2028
    ||| u == 0x2029
    ||| u == 0x202F
    ||| u == 0x205F
    ||| u == 0x3000
}

/// `s` with its leading whitespace removed.
pub open spec fn trim_front(s: Seq<char>) -> Seq<char>
    decreases s.len(),
{
    if s.len() > 0 && is_space_char(s[0]) {
        trim_front(s.drop_first())
    } else {
        s
    }
}

/// `s` with its trailing whitespace removed.
pub open spec fn trim_back(s: Seq<char>) -> Seq<char>
    decreases s.len(),
{
    if s.len() > 0 && is_space_char(s[s.len() - 1]) {
        trim_back(s.drop_last())
    } else {
        s
    }
}

/// `s` with leading and trailing whitespace removed.
pub open spec fn trim_spec(s: Seq<char>) -> Seq<char> {
    trim_back(trim_front(s))
}

/// Whether `c` is a whitespace character.
pub fn char_is_space(c: char) -> (b: bool)
    ensures
        b == is_space_char(c),
{
    let u = c as u32;
    u == 0x20 || (0x09 <= u && u <= 0x0D) || u == 0x85 || u == 0xA0 || u == 0x1680 || (0x2000
        <= u && u <= 0x200A) || u == 0x2028 || u == 0x2029 || u == 0x202F || u == 0x205F || u
        == 0x3000
}

proof fn lemma_trim_front_at(s: Seq<char>, k: int)
    requires
        0 <= k <= s.len(),
        forall|j: int| 0 <= j < k ==> is_space_char(s[j]),
        k == s.len() || !is_space_char(s[k]),
    ensures
        trim_front(s) == s.subrange(k, s.len() as int),
    decreases k,
{
    if k == 0 {
        assert(s.subrange(0, s.len() as int) =~= s);
    } else {
        assert(is_space_char(s[0]));
        lemma_trim_front_at(s.drop_first(), k - 1);
        assert(s.drop_first().subrange(k - 1, s.drop_first().len() as int) =~= s.subrange(
            k,
            s.len() as int,
        ));
    }
}

proof fn lemma_trim_back_at(s: Seq<char>, h: int)
    requires
        0 <= h <= s.len(),
        forall|j: int| h <= j < s.len() ==> is_space_char(s[j]),
        h == 0 || !is_space_char(s[h - 1]),
    ensures
        trim_back(s) == s.subrange(0, h),
    decreases s.len(),
{
    if h == s.len() {
        assert(!(s.len() > 0 && is_space_char(s[s.len() - 1])));
        assert(s.subrange(0, h) =~= s);
    } else {
        assert(is_space_char(s[s.len() - 1]));
        lemma_trim_back_at(s.drop_last(), h);
        assert(s.drop_last().subrange(0, h) =~= s.subrange(0, h));
    }
}

/// A copy of `s` with leading and trailing whitespace removed.
pub fn trim(s: &str) -> (r: String)
    ensures
        r@ == trim_spec(s@),
{
    let n = s.unicode_len();
    let mut lo: usize = 0;
    let mut more_front = true;
    while more_front && lo < n
        invariant
            0 <= lo <= n,
            n == s@.len(),
            forall|j: int| 0 <= j < lo ==> is_space_char(s@[j]),
            !more_front ==> lo < n && !is_space_char(s@[lo as int]),
        decreases n - lo + (if more_front { 1int } else { 0int }),
    {
        let c = s.get_char(lo);
        if char_is_space(c) {
            lo = lo + 1;
        } else {
            more_front = false;
        }
    }
    let mut hi: usize = n;
    let mut more_back = true;
    while more_back && hi > lo
        invariant
            lo <= hi <= n,
            n == s@.len(),
            forall|j: int| hi <= j < n ==> is_space_char(s@[j]),
            !more_back ==> hi > lo && !is_space_char(s@[hi - 1]),
        decreases hi + (if more_back { 1int } else { 0int }),
    {
        let c = s.get_char(hi - 1);
        if char_is_space(c) {
            hi = hi - 1;
        } else {
            more_back = false;
        }
    }
    let r = s.substring_char(lo, hi);
    proof {
        lemma_trim_front_at(s@, lo as int);
        let t = s@.subrange(lo as int, n as int);
        lemma_trim_back_at(t, hi - lo);
        assert(t.subrange(0, hi - lo) =~= s@.subrange(lo as int, hi as int));
    }
    r.to_owned()
}

} // verus!
