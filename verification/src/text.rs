use vstd::prelude::*;

verus! {

/// Appends `c` to `s`.
///
/// Calls std's `String::push`, of which the contract claims what its documentation
/// says: the string afterwards is the old one followed by `c`.
#[verifier::external_body]
pub(crate) fn push_char(s: &mut String, c: char)
    ensures
        final(s)@ == old(s)@.push(c),
{
    s.push(c)
}

/// The characters of `s`, in order.
pub fn chars_of(s: &str) -> (v: Vec<char>)
    ensures
        v@ == s@,
{
    let n = s.unicode_len();
    let mut v: Vec<char> = Vec::new();
    let mut i: usize = 0;
    while i < n
        invariant
            n == s@.len(),
            i <= n,
            v@ == s@.subrange(0, i as int),
        decreases n - i,
    {
        v.push(s.get_char(i));
        i += 1;
    }
    assert(v@ =~= s@);
    v
}

/// A string holding the characters of `v`.
pub fn string_of(v: &Vec<char>) -> (s: String)
    ensures
        s@ == v@,
{
    let mut s = String::new();
    let mut i: usize = 0;
    while i < v.len()
        invariant
            i <= v@.len(),
            s@ == v@.subrange(0, i as int),
        decreases v@.len() - i,
    {
        push_char(&mut s, v[i]);
        i += 1;
    }
    assert(s@ =~= v@);
    s
}

/// The decimal digit for `d < 10`.
pub open spec fn digit_char(d: nat) -> char {
    (48 + d) as char
}

/// The decimal representation of `n`, without leading zeros.
pub open spec fn decimal(n: nat) -> Seq<char>
    decreases n,
{
    if n < 10 {
        seq![digit_char(n)]
    } else {
        decimal(n / 10).push(digit_char(n % 10))
    }
}

/// `s` padded on the left with zeros to at least two characters (as `{:02}` does for a
/// number).
pub open spec fn pad2(s: Seq<char>) -> Seq<char> {
    if s.len() < 2 {
        seq!['0'] + s
    } else {
        s
    }
}

/// The lower-case hexadecimal digit for `d < 16`.
pub open spec fn hex_digit_char(d: nat) -> char {
    if d < 10 {
        (48 + d) as char
    } else {
        (87 + d) as char
    }
}

/// `n` as exactly four lower-case hexadecimal digits (as `{:04x}` writes a `u16`).
pub open spec fn hex4(n: nat) -> Seq<char> {
    seq![
        hex_digit_char((n / 4096) % 16),
        hex_digit_char((n / 256) % 16),
        hex_digit_char((n / 16) % 16),
        hex_digit_char(n % 16),
    ]
}

fn digit(d: u64) -> (c: char)
    requires
        d < 10,
    ensures
        c == digit_char(d as nat),
{
    let b: u8 = 48u8 + (d as u8);
    b as char
}

fn hex_digit(d: u16) -> (c: char)
    requires
        d < 16,
    ensures
        c == hex_digit_char(d as nat),
{
    if d < 10 {
        let b: u8 = 48u8 + (d as u8);
        b as char
    } else {
        let b: u8 = 87u8 + (d as u8);
        b as char
    }
}

/// The decimal digits of `n`.
pub fn decimal_chars(n: u64) -> (v: Vec<char>)
    ensures
        v@ == decimal(n as nat),
    decreases n,
{
    if n < 10 {
        let mut v: Vec<char> = Vec::new();
        v.push(digit(n));
        v
    } else {
        let mut v = decimal_chars(n / 10);
        v.push(digit(n % 10));
        v
    }
}

/// Appends the characters of `v` to `s`.
pub fn push_chars(s: &mut String, v: &Vec<char>)
    ensures
        final(s)@ == old(s)@ + v@,
{
    let mut i: usize = 0;
    while i < v.len()
        invariant
            i <= v@.len(),
            s@ == old(s)@ + v@.subrange(0, i as int),
        decreases v@.len() - i,
    {
        push_char(s, v[i]);
        i += 1;
    }
    assert(v@.subrange(0, v@.len() as int) =~= v@);
}

/// Appends `n` in decimal to `s`.
pub fn push_decimal(s: &mut String, n: u64)
    ensures
        final(s)@ == old(s)@ + decimal(n as nat),
{
    let v = decimal_chars(n);
    push_chars(s, &v);
}

/// Appends `n` in decimal, padded to two digits, to `s`.
pub fn push_decimal2(s: &mut String, n: u64)
    ensures
        final(s)@ == old(s)@ + pad2(decimal(n as nat)),
{
    let v = decimal_chars(n);
    if v.len() < 2 {
        push_char(s, '0');
        assert(seq!['0'] + v@ =~= seq!['0'].push(v@[0]));
    }
    push_chars(s, &v);
    assert(old(s)@ + pad2(decimal(n as nat)) =~= s@);
}

/// Appends `n` as four lower-case hexadecimal digits to `s`.
pub fn push_hex4(s: &mut String, n: u16)
    ensures
        final(s)@ == old(s)@ + hex4(n as nat),
{
    push_char(s, hex_digit((n / 4096) % 16));
    push_char(s, hex_digit((n / 256) % 16));
    push_char(s, hex_digit((n / 16) % 16));
    push_char(s, hex_digit(n % 16));
    assert(old(s)@ + hex4(n as nat) =~= s@);
}

/// Appends the characters of `t` to `s`.
pub fn push_str(s: &mut String, t: &str)
    ensures
        final(s)@ == old(s)@ + t@,
{
    s.append(t);
}

/// Whether `s` ends with `pat`.
pub open spec fn ends_with(s: Seq<char>, pat: Seq<char>) -> bool {
    pat.len() <= s.len() && s.subrange(s.len() - pat.len(), s.len() as int) == pat
}

/// Whether `s` starts with `pat`.
pub open spec fn starts_with(s: Seq<char>, pat: Seq<char>) -> bool {
    pat.len() <= s.len() && s.subrange(0, pat.len() as int) == pat
}

/// Whether `pat` occurs in `s` (an empty `pat` occurs in every string).
pub open spec fn contains(s: Seq<char>, pat: Seq<char>) -> bool {
    exists|i: int| 0 <= i && i + pat.len() <= s.len() && #[trigger] s.subrange(i, i + pat.len()) == pat
}

/// `s` with every trailing repetition of `pat` removed (as `str::trim_end_matches`
/// does); `s` itself when `pat` is empty.
pub open spec fn trim_end_all(s: Seq<char>, pat: Seq<char>) -> Seq<char>
    decreases s.len(),
{
    if pat.len() > 0 && ends_with(s, pat) {
        trim_end_all(s.subrange(0, s.len() - pat.len()), pat)
    } else {
        s
    }
}

/// `s` with every leading repetition of `pat` removed (as `str::trim_start_matches`
/// does); `s` itself when `pat` is empty.
pub open spec fn trim_start_all(s: Seq<char>, pat: Seq<char>) -> Seq<char>
    decreases s.len(),
{
    if pat.len() > 0 && starts_with(s, pat) {
        trim_start_all(s.subrange(pat.len() as int, s.len() as int), pat)
    } else {
        s
    }
}

/// The index of the last occurrence of `c` in `s`.
pub open spec fn last_index_of(s: Seq<char>, c: char) -> Option<int>
    decreases s.len(),
{
    if s.len() == 0 {
        None
    } else if s.last() == c {
        Some(s.len() - 1)
    } else {
        last_index_of(s.drop_last(), c)
    }
}

/// What is left of `s` after removing trailing repetitions of `pat` is a prefix of it.
pub proof fn lemma_trim_end_prefix(s: Seq<char>, pat: Seq<char>)
    ensures
        trim_end_all(s, pat).len() <= s.len(),
        trim_end_all(s, pat) == s.subrange(0, trim_end_all(s, pat).len() as int),
    decreases s.len(),
{
    if pat.len() > 0 && ends_with(s, pat) {
        let t = s.subrange(0, s.len() - pat.len());
        lemma_trim_end_prefix(t, pat);
        assert(t.subrange(0, trim_end_all(t, pat).len() as int) =~= s.subrange(
            0,
            trim_end_all(t, pat).len() as int,
        ));
    } else {
        assert(s.subrange(0, s.len() as int) =~= s);
    }
}

/// What is left of `s` after removing leading repetitions of `pat` is a suffix of it.
pub proof fn lemma_trim_start_suffix(s: Seq<char>, pat: Seq<char>)
    ensures
        trim_start_all(s, pat).len() <= s.len(),
        trim_start_all(s, pat) == s.subrange(
            s.len() - trim_start_all(s, pat).len(),
            s.len() as int,
        ),
    decreases s.len(),
{
    if pat.len() > 0 && starts_with(s, pat) {
        let t = s.subrange(pat.len() as int, s.len() as int);
        lemma_trim_start_suffix(t, pat);
        assert(t.subrange(t.len() - trim_start_all(t, pat).len(), t.len() as int) =~= s.subrange(
            s.len() - trim_start_all(t, pat).len(),
            s.len() as int,
        ));
    } else {
        assert(s.subrange(0, s.len() as int) =~= s);
    }
}

/// The last occurrence of `c`: it holds `c`, and no later position does.
pub proof fn lemma_last_index_of(s: Seq<char>, c: char)
    ensures
        last_index_of(s, c) matches Some(i) ==> 0 <= i < s.len() && s[i] == c && forall|j: int|
            i < j < s.len() ==> s[j] != c,
        last_index_of(s, c) is None ==> forall|j: int| 0 <= j < s.len() ==> s[j] != c,
    decreases s.len(),
{
    if s.len() > 0 && s.last() != c {
        let t = s.drop_last();
        lemma_last_index_of(t, c);
        assert forall|j: int| 0 <= j < t.len() implies t[j] == s[j] by {}
    }
}

/// Whether `pat` occurs in `s` at `at`.
pub fn matches_at(s: &Vec<char>, pat: &Vec<char>, at: usize) -> (found: bool)
    requires
        at + pat.len() <= s.len(),
    ensures
        found == (s@.subrange(at as int, at + pat@.len()) == pat@),
{
    let mut i: usize = 0;
    while i < pat.len()
        invariant
            at + pat.len() <= s.len(),
            i <= pat@.len(),
            forall|j: int| 0 <= j < i ==> s@[at + j] == pat@[j],
        decreases pat@.len() - i,
    {
        if s[at + i] != pat[i] {
            assert(s@.subrange(at as int, at + pat@.len())[i as int] != pat@[i as int]);
            return false;
        }
        i += 1;
    }
    assert(s@.subrange(at as int, at + pat@.len()) =~= pat@);
    true
}

/// Whether `s` ends with `pat`.
pub fn ends_with_chars(s: &Vec<char>, pat: &Vec<char>) -> (found: bool)
    ensures
        found == ends_with(s@, pat@),
{
    if pat.len() > s.len() {
        false
    } else {
        matches_at(s, pat, s.len() - pat.len())
    }
}

/// Whether `s` starts with `pat`.
pub fn starts_with_chars(s: &Vec<char>, pat: &Vec<char>) -> (found: bool)
    ensures
        found == starts_with(s@, pat@),
{
    if pat.len() > s.len() {
        false
    } else {
        matches_at(s, pat, 0)
    }
}

/// Whether `pat` occurs in `s`.
pub fn contains_chars(s: &Vec<char>, pat: &Vec<char>) -> (found: bool)
    ensures
        found == contains(s@, pat@),
{
    if pat.len() > s.len() {
        return false;
    }
    let last = s.len() - pat.len();
    let mut i: usize = 0;
    while i < last
        invariant
            last == s@.len() - pat@.len(),
            i <= last,
            forall|j: int| 0 <= j < i ==> #[trigger] s@.subrange(j, j + pat@.len()) != pat@,
        decreases last - i,
    {
        if matches_at(s, pat, i) {
            return true;
        }
        i += 1;
    }
    matches_at(s, pat, last)
}

/// The characters `s[from..to]`.
pub fn slice_chars(s: &Vec<char>, from: usize, to: usize) -> (v: Vec<char>)
    requires
        from <= to <= s@.len(),
    ensures
        v@ == s@.subrange(from as int, to as int),
{
    let mut v: Vec<char> = Vec::new();
    let mut i: usize = from;
    while i < to
        invariant
            from <= i <= to <= s@.len(),
            v@ == s@.subrange(from as int, i as int),
        decreases to - i,
    {
        v.push(s[i]);
        i += 1;
    }
    v
}

/// `s` with trailing repetitions of `pat` removed.
pub fn trim_end_chars(s: &Vec<char>, pat: &Vec<char>) -> (v: Vec<char>)
    ensures
        v@ == trim_end_all(s@, pat@),
{
    let mut k: usize = s.len();
    let ghost target = trim_end_all(s@, pat@);
    assert(s@.subrange(0, k as int) =~= s@);
    if pat.len() > 0 {
        while k >= pat.len() && matches_at(s, pat, k - pat.len())
            invariant
                pat@.len() > 0,
                k <= s@.len(),
                trim_end_all(s@.subrange(0, k as int), pat@) == target,
            decreases k,
        {
            let ghost t = s@.subrange(0, k as int);
            assert(t.subrange(t.len() - pat@.len(), t.len() as int) =~= s@.subrange(
                k - pat@.len(),
                k as int,
            ));
            assert(t.subrange(0, t.len() - pat@.len()) =~= s@.subrange(0, k - pat@.len()));
            k = k - pat.len();
        }
        proof {
            let t = s@.subrange(0, k as int);
            if ends_with(t, pat@) {
                assert(t.subrange(t.len() - pat@.len(), t.len() as int) =~= s@.subrange(
                    k - pat@.len(),
                    k as int,
                ));
            }
        }
    } else {
        assert(s@.subrange(0, k as int) =~= s@);
    }
    slice_chars(s, 0, k)
}

/// `s` with leading repetitions of `pat` removed.
pub fn trim_start_chars(s: &Vec<char>, pat: &Vec<char>) -> (v: Vec<char>)
    ensures
        v@ == trim_start_all(s@, pat@),
{
    let mut k: usize = 0;
    let ghost target = trim_start_all(s@, pat@);
    assert(s@.subrange(0, s@.len() as int) =~= s@);
    if pat.len() > 0 {
        while k <= s.len() && s.len() - k >= pat.len() && matches_at(s, pat, k)
            invariant
                pat@.len() > 0,
                k <= s@.len(),
                trim_start_all(s@.subrange(k as int, s@.len() as int), pat@) == target,
            decreases s@.len() - k,
        {
            let ghost t = s@.subrange(k as int, s@.len() as int);
            assert(t.subrange(0, pat@.len() as int) =~= s@.subrange(k as int, k + pat@.len()));
            assert(t.subrange(pat@.len() as int, t.len() as int) =~= s@.subrange(
                k + pat@.len(),
                s@.len() as int,
            ));
            k = k + pat.len();
        }
        proof {
            let t = s@.subrange(k as int, s@.len() as int);
            if starts_with(t, pat@) {
                assert(t.subrange(0, pat@.len() as int) =~= s@.subrange(k as int, k + pat@.len()));
            }
        }
    } else {
        assert(s@.subrange(0, s@.len() as int) =~= s@);
    }
    slice_chars(s, k, s.len())
}

/// The index of the last `c` in `s`.
pub fn last_index_of_char(s: &Vec<char>, c: char) -> (pos: Option<usize>)
    ensures
        match last_index_of(s@, c) {
            Some(i) => pos == Some(i as usize),
            None => pos is None,
        },
{
    let mut k: usize = s.len();
    assert(s@.subrange(0, k as int) =~= s@);
    while k > 0
        invariant
            k <= s@.len(),
            last_index_of(s@.subrange(0, k as int), c) == last_index_of(s@, c),
        decreases k,
    {
        let ghost t = s@.subrange(0, k as int);
        if s[k - 1] == c {
            return Some(k - 1);
        }
        assert(t.drop_last() =~= s@.subrange(0, k - 1));
        k -= 1;
    }
    None
}

/// Whether two vectors of characters are equal.
pub fn same_chars(a: &Vec<char>, b: &Vec<char>) -> (same: bool)
    ensures
        same == (a@ == b@),
{
    if a.len() != b.len() {
        return false;
    }
    let r = matches_at(a, b, 0);
    assert(a@.subrange(0, b@.len() as int) =~= a@);
    r
}

/// Whether two strings hold the same characters.
pub fn same_text(a: &str, b: &str) -> (same: bool)
    ensures
        same == (a@ == b@),
{
    let x = chars_of(a);
    let y = chars_of(b);
    same_chars(&x, &y)
}

} // verus!
