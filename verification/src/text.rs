//! Character classes and the text clean-up that every user-supplied field goes through.
use vstd::prelude::*;

verus! {

broadcast use vstd::string::group_string_axioms;

/// Unicode general category `Cc`: U+0000..=U+001F and U+007F..=U+009F.
pub open spec fn is_control_char(c: char) -> bool {
    (c as u32) <= 0x1f || (0x7f <= (c as u32) && (c as u32) <= 0x9f)
}

/// The Unicode `White_Space` property, the set that `str::trim` strips.
pub open spec fn is_white_space_char(c: char) -> bool {
    let u = c as u32;
    ||| (0x09 <= u && u <= 0x0d)
    ||| u == 0x20
    ||| u == 0x85
    ||| u == 0xa0
    ||| u == 0x1680
    ||| (0x2000 <= u && u <= 0x200a)
    ||| u == 0x2028
    ||| u == 0x2029
    ||| u == 0x202f
    ||| u == 0x205f
    ||| u == 0x3000
}

/// A character survives sanitizing when it is not a control character, or is one of
/// newline, carriage return and tab.
pub open spec fn kept_char(c: char) -> bool {
    !is_control_char(c) || c == '\n' || c == '\r' || c == '\t'
}

/// `kept_char` as a predicate value, for `Seq::filter`.
pub open spec fn keep_pred() -> spec_fn(char) -> bool {
    |c: char| kept_char(c)
}

/// `s` without its leading white space.
pub open spec fn trim_start(s: Seq<char>) -> Seq<char>
    decreases s.len(),
{
    if s.len() > 0 && is_white_space_char(s[0]) {
        trim_start(s.drop_first())
    } else {
        s
    }
}

/// `s` without its trailing white space.
pub open spec fn trim_end(s: Seq<char>) -> Seq<char>
    decreases s.len(),
{
    if s.len() > 0 && is_white_space_char(s.last()) {
        trim_end(s.drop_last())
    } else {
        s
    }
}

/// `s` without leading and trailing white space.
pub open spec fn trim(s: Seq<char>) -> Seq<char> {
    trim_end(trim_start(s))
}

/// What sanitizing makes of `s`: control characters other than `\n`, `\r`, `\t` are
/// dropped, then surrounding white space is trimmed.
pub open spec fn sanitized(s: Seq<char>) -> Seq<char> {
    trim(s.filter(keep_pred()))
}

/// Number of UTF-8 bytes of `s`, which is what `str::len` counts.
pub open spec fn byte_len(s: Seq<char>) -> nat {
    vstd::utf8::encode_utf8(s).len()
}

/// `str::len`: the number of bytes of the UTF-8 encoding of `s`.
pub(crate) fn str_byte_len(s: &str) -> (n: usize)
    ensures
        n as nat == byte_len(s@),
{
    s.as_bytes().len()
}

pub fn is_control(c: char) -> (r: bool)
    ensures
        r == is_control_char(c),
{
    let u = c as u32;
    u <= 0x1f || (0x7f <= u && u <= 0x9f)
}

pub fn is_white_space(c: char) -> (r: bool)
    ensures
        r == is_white_space_char(c),
{
    let u = c as u32;
    (0x09 <= u && u <= 0x0d) || u == 0x20 || u == 0x85 || u == 0xa0 || u == 0x1680 || (0x2000
        <= u && u <= 0x200a) || u == 0x2028 || u == 0x2029 || u == 0x202f || u == 0x205f || u
        == 0x3000
}

/// The characters of `s`, in order.
pub fn chars_of(s: &str) -> (v: Vec<char>)
    ensures
        v@ == s@,
{
    let mut v: Vec<char> = Vec::new();
    for c in it: s.chars()
        invariant
            v@ == it.seq().take(it.index() as int),
            it.seq() == s@,
    {
        v.push(c);
    }
    v
}

/// `String::push`.
#[verifier::external_body]
pub(crate) fn push_char(s: &mut String, c: char)
    ensures
        final(s)@ == old(s)@.push(c),
{
    s.push(c);
}

/// The string made of `v[lo..hi]`.
pub fn string_from_range(v: &Vec<char>, lo: usize, hi: usize) -> (s: String)
    requires
        lo <= hi <= v.len(),
    ensures
        s@ == v@.subrange(lo as int, hi as int),
{
    let mut s = String::new();
    let mut i = lo;
    while i < hi
        invariant
            lo <= i <= hi <= v.len(),
            s@ == v@.subrange(lo as int, i as int),
        decreases hi - i,
    {
        push_char(&mut s, v[i]);
        i = i + 1;
    }
    s
}

/// The string made of all of `v`.
pub fn string_from_chars(v: &Vec<char>) -> (s: String)
    ensures
        s@ == v@,
{
    let s = string_from_range(v, 0, v.len());
    assert(v@.subrange(0, v@.len() as int) =~= v@);
    s
}

pub proof fn lemma_trim_start(s: Seq<char>, k: int)
    requires
        0 <= k <= s.len(),
        forall|i: int| 0 <= i < k ==> is_white_space_char(#[trigger] s[i]),
        k == s.len() || !is_white_space_char(s[k]),
    ensures
        trim_start(s) == s.subrange(k, s.len() as int),
    decreases k,
{
    if k == 0 {
        if s.len() > 0 {
            assert(!is_white_space_char(s[0]));
        }
        assert(s.subrange(0, s.len() as int) =~= s);
    } else {
        assert(is_white_space_char(s[0]));
        let t = s.drop_first();
        assert forall|i: int| 0 <= i < k - 1 implies is_white_space_char(#[trigger] t[i]) by {
            assert(t[i] == s[i + 1]);
        }
        if k < s.len() {
            assert(t[k - 1] == s[k]);
        }
        lemma_trim_start(t, k - 1);
        assert(t.subrange(k - 1, t.len() as int) =~= s.subrange(k, s.len() as int));
    }
}

pub proof fn lemma_trim_end(s: Seq<char>, k: int)
    requires
        0 <= k <= s.len(),
        forall|i: int| k <= i < s.len() ==> is_white_space_char(#[trigger] s[i]),
        k == 0 || !is_white_space_char(s[k - 1]),
    ensures
        trim_end(s) == s.subrange(0, k),
    decreases s.len() - k,
{
    if k == s.len() {
        if s.len() > 0 {
            assert(!is_white_space_char(s.last()));
        }
        assert(s.subrange(0, s.len() as int) =~= s);
    } else {
        assert(is_white_space_char(s.last()));
        let t = s.drop_last();
        assert forall|i: int| k <= i < t.len() implies is_white_space_char(#[trigger] t[i]) by {
            assert(t[i] == s[i]);
        }
        if k > 0 {
            assert(t[k - 1] == s[k - 1]);
        }
        lemma_trim_end(t, k);
        assert(t.subrange(0, k) =~= s.subrange(0, k));
    }
}

/// `trim_start(s)` is the suffix of `s` from its first character that is not white space.
proof fn lemma_trim_start_suffix(s: Seq<char>) -> (k: int)
    ensures
        0 <= k <= s.len(),
        trim_start(s) == s.subrange(k, s.len() as int),
        k == s.len() || !is_white_space_char(s[k]),
    decreases s.len(),
{
    if s.len() > 0 && is_white_space_char(s[0]) {
        let j = lemma_trim_start_suffix(s.drop_first());
        assert(s.drop_first().subrange(j, s.len() - 1) =~= s.subrange(j + 1, s.len() as int));
        if j + 1 < s.len() {
            assert(s.drop_first()[j] == s[j + 1]);
        }
        j + 1
    } else {
        assert(s.subrange(0, s.len() as int) =~= s);
        0
    }
}

/// `trim_end(s)` is the prefix of `s` up to its last character that is not white space.
proof fn lemma_trim_end_prefix(s: Seq<char>) -> (k: int)
    ensures
        0 <= k <= s.len(),
        trim_end(s) == s.subrange(0, k),
        k == 0 || !is_white_space_char(s[k - 1]),
    decreases s.len(),
{
    if s.len() > 0 && is_white_space_char(s.last()) {
        let j = lemma_trim_end_prefix(s.drop_last());
        assert(s.drop_last().subrange(0, j) =~= s.subrange(0, j));
        if j > 0 {
            assert(s.drop_last()[j - 1] == s[j - 1]);
        }
        j
    } else {
        assert(s.subrange(0, s.len() as int) =~= s);
        s.len() as int
    }
}

/// A sequence all of whose characters survive sanitizing is left as it is by the filter.
proof fn lemma_filter_keeps_all(t: Seq<char>)
    requires
        forall|i: int| 0 <= i < t.len() ==> kept_char(#[trigger] t[i]),
    ensures
        t.filter(keep_pred()) == t,
    decreases t.len(),
{
    reveal(Seq::filter);
    if t.len() > 0 {
        let u = t.drop_last();
        assert forall|i: int| 0 <= i < u.len() implies kept_char(#[trigger] u[i]) by {
            assert(u[i] == t[i]);
        }
        lemma_filter_keeps_all(u);
        assert(keep_pred()(t.last()));
        assert(u.push(t.last()) =~= t);
    }
}

/// Sanitizing twice gives what sanitizing once gives.
pub proof fn law_sanitize_idempotent(s: Seq<char>)
    ensures
        sanitized(sanitized(s)) == sanitized(s),
{
    let f = s.filter(keep_pred());
    let a = lemma_trim_start_suffix(f);
    let y = trim_start(f);
    let b = lemma_trim_end_prefix(y);
    let t = sanitized(s);
    assert(t == y.subrange(0, b));
    assert forall|i: int| 0 <= i < t.len() implies kept_char(#[trigger] t[i]) by {
        assert(t[i] == f[a + i]);
        s.lemma_filter_pred(keep_pred(), a + i);
    }
    lemma_filter_keeps_all(t);
    if t.len() > 0 {
        assert(t[0] == y[0]);
        assert(y[0] == f[a]);
        assert(t.last() == y[b - 1]);
    }
    assert(trim_start(t) == t);
    assert(trim_end(t) == t);
}

/// The bounds `lo..hi` of `v` that `trim` keeps.
pub fn trim_bounds(v: &Vec<char>) -> (r: (usize, usize))
    ensures
        r.0 <= r.1 <= v.len(),
        trim(v@) == v@.subrange(r.0 as int, r.1 as int),
{
    let mut lo: usize = 0;
    while lo < v.len() && is_white_space(v[lo])
        invariant
            lo <= v.len(),
            forall|i: int| 0 <= i < lo ==> is_white_space_char(#[trigger] v@[i]),
        decreases v.len() - lo,
    {
        lo = lo + 1;
    }
    proof {
        lemma_trim_start(v@, lo as int);
    }
    let mut hi: usize = v.len();
    while hi > lo && is_white_space(v[hi - 1])
        invariant
            lo <= hi <= v.len(),
            forall|i: int| hi <= i < v.len() ==> is_white_space_char(#[trigger] v@[i]),
        decreases hi - lo,
    {
        hi = hi - 1;
    }
    proof {
        let t = v@.subrange(lo as int, v.len() as int);
        assert forall|i: int| hi - lo <= i < t.len() implies is_white_space_char(#[trigger] t[i]) by {
            assert(t[i] == v@[i + lo]);
        }
        if hi > lo {
            assert(t[hi - lo - 1] == v@[hi - 1]);
        }
        lemma_trim_end(t, hi - lo);
        assert(t.subrange(0, hi - lo) =~= v@.subrange(lo as int, hi as int));
    }
    (lo, hi)
}

/// Drops every control character of `input` except `\n`, `\r` and `\t`, then trims
/// surrounding white space.
pub fn sanitize_string(input: &str) -> (r: String)
    ensures
        r@ == sanitized(input@),
{
    let chars = chars_of(input);
    let mut kept: Vec<char> = Vec::new();
    for i in 0..chars.len()
        invariant
            chars@ == input@,
            kept@ == chars@.take(i as int).filter(keep_pred()),
    {
        let c = chars[i];
        proof {
            assert(chars@.take(i + 1).drop_last() =~= chars@.take(i as int));
            reveal(Seq::filter);
        }
        if !is_control(c) || c == '\n' || c == '\r' || c == '\t' {
            kept.push(c);
        }
    }
    assert(chars@.take(chars.len() as int) =~= chars@);
    let (lo, hi) = trim_bounds(&kept);
    string_from_range(&kept, lo, hi)
}

/// Whether `a` and `b` hold the same characters.
pub fn str_eq(a: &str, b: &str) -> (r: bool)
    ensures
        r == (a@ == b@),
{
    let x = chars_of(a);
    let y = chars_of(b);
    if x.len() != y.len() {
        return false;
    }
    let mut i: usize = 0;
    while i < x.len()
        invariant
            x@ == a@,
            y@ == b@,
            x.len() == y.len(),
            i <= x.len(),
            forall|j: int| 0 <= j < i ==> x@[j] == y@[j],
        decreases x.len() - i,
    {
        if x[i] != y[i] {
            return false;
        }
        i = i + 1;
    }
    assert(x@ =~= y@);
    true
}

/// `a` followed by `b`.
pub fn concat(a: &str, b: &str) -> (r: String)
    ensures
        r@ == a@ + b@,
{
    let x = chars_of(a);
    let y = chars_of(b);
    let mut s = string_from_chars(&x);
    let mut i: usize = 0;
    while i < y.len()
        invariant
            y@ == b@,
            i <= y.len(),
            s@ == a@ + b@.take(i as int),
        decreases y.len() - i,
    {
        push_char(&mut s, y[i]);
        proof {
            assert(b@.take(i + 1) =~= b@.take(i as int).push(b@[i as int]));
        }
        i = i + 1;
    }
    assert(b@.take(b@.len() as int) =~= b@);
    s
}

pub open spec fn digit_char(d: nat) -> char {
    (('0' as u32) + d) as char
}

/// The decimal digits of `n`, without leading zeros.
pub open spec fn decimal(n: nat) -> Seq<char>
    decreases n,
{
    if n < 10 {
        seq![digit_char(n)]
    } else {
        decimal(n / 10).push(digit_char(n % 10))
    }
}

/// `n` written in decimal.
pub fn decimal_string(n: u64) -> (s: String)
    ensures
        s@ == decimal(n as nat),
{
    // The digits from the lowest up.
    let mut rev: Vec<char> = Vec::new();
    let mut m = n;
    let ghost mut low: Seq<char> = Seq::empty();
    loop
        invariant_except_break
            decimal(n as nat) == decimal(m as nat) + low,
        invariant
            m <= n,
            rev@ == low.reverse(),
        ensures
            decimal(n as nat) == low,
        decreases m,
    {
        let d = m % 10;
        let c = char_of_digit(d);
        if m < 10 {
            rev.push(c);
            proof {
                assert(decimal(m as nat) == seq![digit_char(m as nat)]);
                assert(decimal(n as nat) =~= seq![c] + low);
                low = seq![c] + low;
                assert(rev@ =~= low.reverse());
            }
            break;
        }
        rev.push(c);
        proof {
            assert(decimal(m as nat) == decimal((m / 10) as nat).push(digit_char((m % 10) as nat)));
            assert(decimal(m as nat) + low =~= decimal((m / 10) as nat) + (seq![c] + low));
            low = seq![c] + low;
            assert(rev@ =~= low.reverse());
        }
        m = m / 10;
    }
    let mut out: Vec<char> = Vec::new();
    let mut i = rev.len();
    while i > 0
        invariant
            i <= rev.len(),
            rev@ == low.reverse(),
            out@ == low.take((rev.len() - i) as int),
        decreases i,
    {
        i = i - 1;
        out.push(rev[i]);
        proof {
            assert(low.take((rev.len() - i) as int) =~= low.take((rev.len() - i - 1) as int).push(
                low[(rev.len() - i - 1) as int],
            ));
        }
    }
    proof {
        assert(low.take(rev.len() as int) =~= low);
        assert(decimal(n as nat) =~= low);
    }
    string_from_chars(&out)
}

fn char_of_digit(d: u64) -> (c: char)
    requires
        d < 10,
    ensures
        c == digit_char(d as nat),
{
    if d == 0 {
        '0'
    } else if d == 1 {
        '1'
    } else if d == 2 {
        '2'
    } else if d == 3 {
        '3'
    } else if d == 4 {
        '4'
    } else if d == 5 {
        '5'
    } else if d == 6 {
        '6'
    } else if d == 7 {
        '7'
    } else if d == 8 {
        '8'
    } else {
        '9'
    }
}

} // verus!
