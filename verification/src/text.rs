//! Byte strings: searching them and cutting them into pieces.
use vstd::prelude::*;
use vstd::string::StringExecFns;

verus! {

/// `needle` stands in `hay` at offset `at`.
pub open spec fn occurs_at(hay: Seq<u8>, needle: Seq<u8>, at: int) -> bool {
    &&& 0 <= at
    &&& at + needle.len() <= hay.len()
    &&& hay.subrange(at, at + needle.len()) == needle
}

/// `needle` stands somewhere in `hay`. The empty needle stands everywhere.
pub open spec fn contains(hay: Seq<u8>, needle: Seq<u8>) -> bool {
    exists|at: int| occurs_at(hay, needle, at)
}

/// Tests whether `needle` stands in `hay` at offset `at`.
pub fn matches_at(hay: &[u8], needle: &[u8], at: usize) -> (r: bool)
    ensures
        r == occurs_at(hay@, needle@, at as int),
{
    if needle.len() > hay.len() || at > hay.len() - needle.len() {
        return false;
    }
    let mut i: usize = 0;
    while i < needle.len()
        invariant
            i <= needle.len(),
            at + needle.len() <= hay.len(),
            forall|j: int| 0 <= j < i ==> hay@[at + j] == needle@[j],
        decreases needle.len() - i,
    {
        if hay[at + i] != needle[i] {
            assert(hay@.subrange(at as int, at + needle@.len())[i as int] != needle@[i as int]);
            return false;
        }
        i += 1;
    }
    assert(hay@.subrange(at as int, at + needle@.len()) =~= needle@);
    true
}

/// Tests whether `needle` stands somewhere in `hay`.
pub fn contains_bytes(hay: &[u8], needle: &[u8]) -> (r: bool)
    ensures
        r == contains(hay@, needle@),
{
    if needle.len() > hay.len() {
        return false;
    }
    if needle.len() == 0 {
        assert(hay@.subrange(0, 0) =~= needle@);
        assert(occurs_at(hay@, needle@, 0));
        return true;
    }
    let last: usize = hay.len() - needle.len();
    let mut at: usize = 0;
    while at <= last
        invariant
            last == hay.len() - needle.len(),
            last < usize::MAX,
            at <= last + 1,
            forall|k: int| 0 <= k < at ==> !occurs_at(hay@, needle@, k),
        decreases last + 1 - at,
    {
        if matches_at(hay, needle, at) {
            return true;
        }
        at += 1;
    }
    false
}

/// The first index at or after `from` whose element meets `p`, or the length
/// of `s` where no element from there on meets it.
pub open spec fn first_where<T>(s: Seq<T>, p: spec_fn(T) -> bool, from: int) -> int
    decreases s.len() - from,
{
    if from >= s.len() {
        s.len() as int
    } else if p(s[from]) {
        from
    } else {
        first_where(s, p, from + 1)
    }
}

/// `first_where` lands between `from` and the end, on an element that meets
/// `p` unless it lands on the end, and passes over none that meets it.
pub proof fn lemma_first_where<T>(s: Seq<T>, p: spec_fn(T) -> bool, from: int)
    requires
        0 <= from <= s.len(),
    ensures
        from <= first_where(s, p, from) <= s.len(),
        forall|k: int| from <= k < first_where(s, p, from) ==> !p(#[trigger] s[k]),
        first_where(s, p, from) < s.len() ==> p(s[first_where(s, p, from)]),
    decreases s.len() - from,
{
    if from < s.len() && !p(s[from]) {
        lemma_first_where(s, p, from + 1);
    }
}

/// An index that no element meeting `p` comes before, and that holds such an
/// element or is the end, is the one `first_where` gives.
pub proof fn lemma_first_where_is<T>(s: Seq<T>, p: spec_fn(T) -> bool, from: int, at: int)
    requires
        0 <= from <= at <= s.len(),
        forall|k: int| from <= k < at ==> !p(#[trigger] s[k]),
        at < s.len() ==> p(s[at]),
    ensures
        first_where(s, p, from) == at,
    decreases at - from,
{
    if from < at {
        assert(!p(s[from]));
        lemma_first_where_is(s, p, from + 1, at);
    }
}

/// The first index at or after `from` that holds the byte `b`, or the length
/// of `s`.
pub open spec fn seek(s: Seq<u8>, from: int, b: u8) -> int {
    first_where(s, is_byte(b), from)
}

/// The test that a byte is `b`.
pub open spec fn is_byte(b: u8) -> spec_fn(u8) -> bool {
    |x: u8| x == b
}

/// Finds the first `b` in `s` at or after `from`; gives the length of `s`
/// where there is none.
pub fn seek_byte(s: &[u8], from: usize, b: u8) -> (at: usize)
    ensures
        at == seek(s@, from as int, b),
        from <= s.len() ==> from <= at <= s.len(),
{
    if from >= s.len() {
        return s.len();
    }
    let mut at: usize = from;
    while at < s.len() && s[at] != b
        invariant
            from <= at <= s.len(),
            forall|k: int| from <= k < at ==> s@[k] != b,
        decreases s.len() - at,
    {
        at += 1;
    }
    proof {
        lemma_first_where_is(s@, is_byte(b), from as int, at as int);
    }
    at
}

/// Whether `b` parts one token from the next: the space, or one of the five
/// control bytes from tab to carriage return.
pub open spec fn is_space(b: u8) -> bool {
    b == 0x20 || (0x09 <= b && b <= 0x0d)
}

/// Tests whether `b` parts one token from the next.
pub fn is_space_byte(b: u8) -> (r: bool)
    ensures
        r == is_space(b),
{
    b == 0x20 || (0x09 <= b && b <= 0x0d)
}

/// Where the run of non-space bytes that starts at `from` ends.
pub open spec fn run_end(s: Seq<u8>, from: int) -> int {
    first_where(s, space(), from)
}

/// The test that a byte parts tokens.
pub open spec fn space() -> spec_fn(u8) -> bool {
    |x: u8| is_space(x)
}

/// The tokens of `s` that start at or after `from`, in order. A token is a
/// run of non-space bytes that cannot be made longer.
pub open spec fn tokens_from(s: Seq<u8>, from: int) -> Seq<Seq<u8>>
    decreases s.len() - from,
{
    if from < 0 || from >= s.len() {
        Seq::empty()
    } else if is_space(s[from]) {
        tokens_from(s, from + 1)
    } else {
        proof {
            lemma_first_where(s, space(), from);
        }
        seq![s.subrange(from, run_end(s, from))] + tokens_from(s, run_end(s, from))
    }
}

/// The tokens of `s`: what is left when it is cut at every run of space.
pub open spec fn tokens(s: Seq<u8>) -> Seq<Seq<u8>> {
    tokens_from(s, 0)
}

/// What each slice of `v` holds.
pub open spec fn views(v: Seq<&[u8]>) -> Seq<Seq<u8>> {
    Seq::new(v.len(), |i: int| v[i]@)
}

/// Cuts `s` into its tokens.
pub fn split_tokens(s: &[u8]) -> (out: Vec<&[u8]>)
    ensures
        views(out@) == tokens(s@),
{
    let mut out: Vec<&[u8]> = Vec::new();
    let mut at: usize = 0;
    while at < s.len()
        invariant
            at <= s.len(),
            views(out@) + tokens_from(s@, at as int) == tokens(s@),
        decreases s.len() - at,
    {
        if is_space_byte(s[at]) {
            at += 1;
        } else {
            let mut end: usize = at + 1;
            while end < s.len() && !is_space_byte(s[end])
                invariant
                    at < end <= s.len(),
                    forall|k: int| at <= k < end ==> !is_space(s@[k]),
                decreases s.len() - end,
            {
                end += 1;
            }
            let token = vstd::slice::slice_subrange(s, at, end);
            proof {
                lemma_first_where_is(s@, space(), at as int, end as int);
                assert(views(out@.push(token)) + tokens_from(s@, end as int) =~= views(out@) + (
                seq![token@] + tokens_from(s@, end as int)));
            }
            out.push(token);
            at = end;
        }
    }
    assert(views(out@) + tokens_from(s@, at as int) =~= views(out@));
    out
}

/// The character that writes the digit `d`.
pub open spec fn digit(d: nat) -> char {
    if d == 0 {
        '0'
    } else if d == 1 {
        '1'
    } else if d == 2 {
        '2'
    } else if d == 3 {
        '3'
    } else if d == 4 {
        '4'
    } else if d == 5 {
        '5'
    } else if d == 6 {
        '6'
    } else if d == 7 {
        '7'
    } else if d == 8 {
        '8'
    } else {
        '9'
    }
}

/// `n` written in base ten, without a sign and without leading zeros.
pub open spec fn decimal(n: nat) -> Seq<char>
    decreases n,
{
    if n < 10 {
        seq![digit(n)]
    } else {
        decimal(n / 10).push(digit(n % 10))
    }
}

fn digit_str(d: u64) -> (s: &'static str)
    requires
        d < 10,
    ensures
        s@ == seq![digit(d as nat)],
{
    proof {
        reveal_strlit("0");
        reveal_strlit("1");
        reveal_strlit("2");
        reveal_strlit("3");
        reveal_strlit("4");
        reveal_strlit("5");
        reveal_strlit("6");
        reveal_strlit("7");
        reveal_strlit("8");
        reveal_strlit("9");
    }
    let s = if d == 0 {
        "0"
    } else if d == 1 {
        "1"
    } else if d == 2 {
        "2"
    } else if d == 3 {
        "3"
    } else if d == 4 {
        "4"
    } else if d == 5 {
        "5"
    } else if d == 6 {
        "6"
    } else if d == 7 {
        "7"
    } else if d == 8 {
        "8"
    } else {
        "9"
    };
    assert(s@ =~= seq![digit(d as nat)]);
    s
}

/// Writes `n` in base ten.
pub fn decimal_string(n: u64) -> (s: String)
    ensures
        s@ == decimal(n as nat),
    decreases n,
{
    if n < 10 {
        String::from_str(digit_str(n))
    } else {
        let mut s = decimal_string(n / 10);
        s.append(digit_str(n % 10));
        assert(s@ =~= decimal((n / 10) as nat).push(digit((n % 10) as nat)));
        s
    }
}

} // verus!
