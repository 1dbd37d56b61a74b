//! Character-level helpers shared by key labels and the settings format:
//! whitespace, trimming, decimal numbers, and moving between `str`, `String`
//! and vectors of characters.

use vstd::prelude::*;
use vstd::string::*;

verus! {

/// Whitespace as `char::is_whitespace` defines it: the Unicode `White_Space`
/// property.
pub open spec fn is_space(c: char) -> bool {
    let u = c as u32;
    ||| 0x09 <= u <= 0x0D
    ||| u == 0x20 || u == 0x85 || u == 0xA0 || u == 0x1680
    ||| 0x2000 <= u <= 0x200A
    ||| u == 0x2028 || u == 0x2029 || u == 0x202F || u == 0x205F || u == 0x3000
}

/// `s` without its leading whitespace.
pub open spec fn trim_start(s: Seq<char>) -> Seq<char>
    decreases s.len(),
{
    if s.len() > 0 && is_space(s[0]) {
        trim_start(s.drop_first())
    } else {
        s
    }
}

/// `s` without its trailing whitespace.
pub open spec fn trim_end(s: Seq<char>) -> Seq<char>
    decreases s.len(),
{
    if s.len() > 0 && is_space(s.last()) {
        trim_end(s.drop_last())
    } else {
        s
    }
}

/// `s` without whitespace at either end, as `str::trim` gives it.
pub open spec fn trim(s: Seq<char>) -> Seq<char> {
    trim_end(trim_start(s))
}

/// No whitespace, `=` or line feed anywhere in `s`.
pub open spec fn plain(s: Seq<char>) -> bool {
    forall|i: int| 0 <= i < s.len() ==> !is_space(#[trigger] s[i]) && s[i] != '=' && s[i] != '\n'
}

/// The character of the decimal digit `d`.
pub open spec fn digit_of(d: nat) -> char {
    (48 + d) as char
}

/// The decimal notation of `n`, without sign or leading zeros.
pub open spec fn decimal(n: nat) -> Seq<char>
    decreases n,
{
    if n < 10 {
        seq![digit_of(n)]
    } else {
        decimal(n / 10).push(digit_of(n % 10))
    }
}

/// The decimal notation of a number below a hundred, digit by digit.
pub proof fn lemma_small_decimal(n: nat)
    requires
        n <= 99,
    ensures
        n < 10 ==> decimal(n) == seq![digit_of(n)],
        n >= 10 ==> decimal(n) == seq![digit_of(n / 10), digit_of(n % 10)],
{
    if n >= 10 {
        assert(decimal(n / 10) == seq![digit_of(n / 10)]);
        assert(decimal(n) =~= seq![digit_of(n / 10), digit_of(n % 10)]);
    }
}

/// Decimal notation consists of the digits `0` to `9`.
pub proof fn lemma_decimal_digits(n: nat)
    ensures
        decimal(n).len() >= 1,
        forall|i: int| 0 <= i < decimal(n).len() ==> 48 <= #[trigger] decimal(n)[i] as u32 <= 57,
    decreases n,
{
    if n >= 10 {
        lemma_decimal_digits(n / 10);
    }
}

/// Text without whitespace is its own trim.
pub proof fn lemma_trim_plain(s: Seq<char>)
    requires
        forall|i: int| 0 <= i < s.len() ==> !is_space(#[trigger] s[i]),
    ensures
        trim(s) == s,
{
}

proof fn lemma_trim_start_nonempty(s: Seq<char>, p: int)
    requires
        0 <= p < s.len(),
        !is_space(s[p]),
    ensures
        trim_start(s).len() > 0,
        !is_space(trim_start(s)[0]),
    decreases s.len(),
{
    if is_space(s[0]) {
        lemma_trim_start_nonempty(s.drop_first(), p - 1);
    }
}

proof fn lemma_trim_end_nonempty(t: Seq<char>)
    requires
        t.len() > 0,
        !is_space(t[0]),
    ensures
        trim_end(t).len() > 0,
    decreases t.len(),
{
    if is_space(t.last()) {
        lemma_trim_end_nonempty(t.drop_last());
    }
}

/// Text with a character other than whitespace does not trim to nothing.
pub proof fn lemma_trim_nonempty(s: Seq<char>, p: int)
    requires
        0 <= p < s.len(),
        !is_space(s[p]),
    ensures
        trim(s).len() > 0,
{
    lemma_trim_start_nonempty(s, p);
    lemma_trim_end_nonempty(trim_start(s));
}

/// Decimal notation is plain text.
pub proof fn lemma_decimal_plain(n: nat)
    ensures
        plain(decimal(n)),
        decimal(n).len() >= 1,
{
    lemma_decimal_digits(n);
    assert forall|i: int| 0 <= i < decimal(n).len() implies !is_space(#[trigger] decimal(n)[i])
        && decimal(n)[i] != '=' && decimal(n)[i] != '\n' by {
        assert(48 <= decimal(n)[i] as u32 <= 57);
    }
}

pub fn is_space_char(c: char) -> (r: bool)
    ensures
        r == is_space(c),
{
    let u = c as u32;
    (0x09 <= u && u <= 0x0D) || u == 0x20 || u == 0x85 || u == 0xA0 || u == 0x1680 || (0x2000
        <= u && u <= 0x200A) || u == 0x2028 || u == 0x2029 || u == 0x202F || u == 0x205F || u
        == 0x3000
}

/// Appends one character to a string.
///
/// Calls `String::push`, which std documents as appending the character to
/// the end of the string.
#[verifier::external_body]
pub(crate) fn push_char(s: &mut String, c: char)
    ensures
        final(s)@ == old(s)@.push(c),
{
    s.push(c);
}

/// The characters of `s`, in order.
pub fn chars_of(s: &str) -> (v: Vec<char>)
    ensures
        v@ == s@,
{
    let n = s.unicode_len();
    let mut v: Vec<char> = Vec::new();
    let mut i: usize = 0;
    while i < n
        invariant
            n == s@.len(),
            i <= n,
            v@ == s@.take(i as int),
        decreases n - i,
    {
        let c = s.get_char(i);
        v.push(c);
        i = i + 1;
        assert(v@ =~= s@.take(i as int));
    }
    assert(v@ =~= s@);
    v
}

/// A string holding the characters `v[from..to]`.
pub fn string_of(v: &Vec<char>, from: usize, to: usize) -> (s: String)
    requires
        from <= to <= v.len(),
    ensures
        s@ == v@.subrange(from as int, to as int),
{
    let mut s = String::new();
    let mut i = from;
    while i < to
        invariant
            from <= i <= to <= v.len(),
            s@ == v@.subrange(from as int, i as int),
        decreases to - i,
    {
        push_char(&mut s, v[i]);
        i = i + 1;
        assert(s@ =~= v@.subrange(from as int, i as int));
    }
    s
}

/// The vector `v[from..to]`.
pub fn slice_of(v: &Vec<char>, from: usize, to: usize) -> (r: Vec<char>)
    requires
        from <= to <= v.len(),
    ensures
        r@ == v@.subrange(from as int, to as int),
{
    let mut r: Vec<char> = Vec::new();
    let mut i = from;
    while i < to
        invariant
            from <= i <= to <= v.len(),
            r@ == v@.subrange(from as int, i as int),
        decreases to - i,
    {
        r.push(v[i]);
        i = i + 1;
        assert(r@ =~= v@.subrange(from as int, i as int));
    }
    r
}

/// Whether two character vectors are equal.
pub fn same_chars(a: &Vec<char>, b: &Vec<char>) -> (r: bool)
    ensures
        r == (a@ == b@),
{
    if a.len() != b.len() {
        return false;
    }
    let mut i: usize = 0;
    while i < a.len()
        invariant
            a.len() == b.len(),
            i <= a.len(),
            forall|j: int| 0 <= j < i ==> a@[j] == b@[j],
        decreases a.len() - i,
    {
        if a[i] != b[i] {
            return false;
        }
        i = i + 1;
    }
    assert(a@ =~= b@);
    true
}

proof fn lemma_trim_start_step(s: Seq<char>, i: int)
    requires
        0 <= i < s.len(),
        is_space(s[i]),
    ensures
        trim_start(s.subrange(i, s.len() as int)) == trim_start(s.subrange(i + 1, s.len() as int)),
{
    let t = s.subrange(i, s.len() as int);
    assert(t.drop_first() =~= s.subrange(i + 1, s.len() as int));
}

proof fn lemma_trim_end_step(s: Seq<char>, j: int)
    requires
        0 < j <= s.len(),
        is_space(s[j - 1]),
    ensures
        trim_end(s.subrange(0, j)) == trim_end(s.subrange(0, j - 1)),
{
    let t = s.subrange(0, j);
    assert(t.drop_last() =~= s.subrange(0, j - 1));
}

/// The characters of `v` without whitespace at either end.
pub fn trimmed(v: &Vec<char>) -> (r: Vec<char>)
    ensures
        r@ == trim(v@),
{
    let n = v.len();
    let mut i: usize = 0;
    assert(v@.subrange(0, n as int) =~= v@);
    while i < n && is_space_char(v[i])
        invariant
            n == v.len(),
            i <= n,
            trim_start(v@) == trim_start(v@.subrange(i as int, n as int)),
        decreases n - i,
    {
        proof {
            lemma_trim_start_step(v@, i as int);
        }
        i = i + 1;
    }
    let ghost t = v@.subrange(i as int, n as int);
    assert(trim_start(v@) == t);
    let mut j: usize = n;
    while j > i && is_space_char(v[j - 1])
        invariant
            n == v.len(),
            i <= j <= n,
            t == v@.subrange(i as int, n as int),
            trim_end(t) == trim_end(v@.subrange(i as int, j as int)),
        decreases j,
    {
        proof {
            let u = v@.subrange(i as int, j as int);
            lemma_trim_end_step(u, u.len() as int);
            assert(u.subrange(0, u.len() as int) =~= u);
            assert(u.subrange(0, u.len() - 1) =~= v@.subrange(i as int, j - 1));
        }
        j = j - 1;
    }
    let r = slice_of(v, i, j);
    r
}

/// Appends the decimal notation of `n` to `s`.
pub fn push_decimal(s: &mut String, n: u8)
    ensures
        final(s)@ == old(s)@ + decimal(n as nat),
{
    let ghost before = s@;
    if n >= 100 {
        push_char(s, (48 + n / 100) as char);
        push_char(s, (48 + (n / 10) % 10) as char);
        push_char(s, (48 + n % 10) as char);
        assert(decimal(n as nat) =~= seq![
            digit_of((n / 100) as nat),
            digit_of(((n / 10) % 10) as nat),
            digit_of((n % 10) as nat),
        ]) by {
            assert(decimal((n / 10) as nat) == decimal((n / 100) as nat).push(
                digit_of(((n / 10) % 10) as nat),
            ));
        }
    } else if n >= 10 {
        push_char(s, (48 + n / 10) as char);
        push_char(s, (48 + n % 10) as char);
        assert(decimal((n / 10) as nat) == seq![digit_of((n / 10) as nat)]);
        assert(decimal(n as nat) =~= seq![digit_of((n / 10) as nat), digit_of((n % 10) as nat)]);
    } else {
        push_char(s, (48 + n) as char);
    }
    assert(s@ =~= before + decimal(n as nat));
}

} // verus!
