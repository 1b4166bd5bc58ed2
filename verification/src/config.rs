use vstd::prelude::*;

use crate::text::{
    decimal, digit_char,
    chars_of, ends_with, push_char, push_str, same_text, starts_with, starts_with_chars,
    string_of, trim_start_all, trim_start_chars,
};

verus! {

/// The settings the web UI runs with; directories are given as paths.
#[derive(Debug, Clone)]
pub struct AppState {
    pub recorded_dir: String,
    pub thumbnails_dir: String,
    pub mirakc_api: String,
    pub ffmpeg_path: String,
    pub thumbnail_offset: u64,
    pub trash_dir: String,
    pub trash_thumb_dir: String,
    pub trash_ttl_days: u64,
    pub cleanup_interval_secs: u64,
}

/// The query of a listing request: a search text and a sort order.
#[derive(Debug, Clone)]
pub struct SearchQuery {
    pub q: Option<String>,
    pub sort: Option<String>,
}

/// How a listing is ordered.
#[derive(Debug, Clone, Copy, PartialEq, Eq)]
pub enum ListingSort {
    /// Most drops first.
    ByDrops,
    /// Largest file first.
    BySize,
    /// As listed: newest file name first.
    Unchanged,
}

/// The order that the `sort` parameter asks for: `drops` or `size`; any other value,
/// or none, leaves the listing as it is.
pub open spec fn spec_listing_sort(sort: Option<Seq<char>>) -> ListingSort {
    match sort {
        Some(s) => if s == "drops"@ {
            ListingSort::ByDrops
        } else if s == "size"@ {
            ListingSort::BySize
        } else {
            ListingSort::Unchanged
        },
        None => ListingSort::Unchanged,
    }
}

/// The order that the `sort` parameter of a query asks for.
pub fn listing_sort(query: &SearchQuery) -> (order: ListingSort)
    ensures
        order == spec_listing_sort(
            match query.sort {
                Some(s) => Some(s@),
                None => None,
            },
        ),
{
    match &query.sort {
        Some(s) => if same_text(s.as_str(), "drops") {
            ListingSort::ByDrops
        } else if same_text(s.as_str(), "size") {
            ListingSort::BySize
        } else {
            ListingSort::Unchanged
        },
        None => ListingSort::Unchanged,
    }
}

/// Whether `s` is a non-empty run of ASCII digits.
pub open spec fn all_digits(s: Seq<char>) -> bool {
    s.len() > 0 && forall|i: int| 0 <= i < s.len() ==> '0' <= #[trigger] s[i] <= '9'
}

/// The number that the decimal digits `s` spell.
pub open spec fn digits_value(s: Seq<char>) -> nat
    decreases s.len(),
{
    if s.len() == 0 {
        0
    } else {
        digits_value(s.drop_last()) * 10 + ((s.last() as int) - 48) as nat
    }
}

/// What `str::parse::<u64>` gives: the value of an optional `+` followed by decimal
/// digits, if it fits in 64 bits.
pub open spec fn spec_parse_u64(s: Seq<char>) -> Option<u64> {
    let d = if s.len() > 0 && s[0] == '+' {
        s.drop_first()
    } else {
        s
    };
    if all_digits(d) && digits_value(d) <= u64::MAX {
        Some(digits_value(d) as u64)
    } else {
        None
    }
}

/// Reads a decimal number, as `str::parse::<u64>` does.
pub fn parse_u64(s: &str) -> (n: Option<u64>)
    ensures
        n == spec_parse_u64(s@),
{
    let v = chars_of(s);
    let mut i: usize = 0;
    if v.len() > 0 && v[0] == '+' {
        i = 1;
    }
    let ghost d = if s@.len() > 0 && s@[0] == '+' {
        s@.drop_first()
    } else {
        s@
    };
    assert(d =~= v@.subrange(i as int, v@.len() as int));
    if i >= v.len() {
        return None;
    }
    let mut value: u64 = 0;
    let start = i;
    while i < v.len()
        invariant
            v@ == s@,
            d == (if s@.len() > 0 && s@[0] == '+' {
                s@.drop_first()
            } else {
                s@
            }),
            start <= i <= v@.len(),
            start < v@.len(),
            d =~= v@.subrange(start as int, v@.len() as int),
            all_digits(v@.subrange(start as int, i as int)) || i == start,
            value == digits_value(v@.subrange(start as int, i as int)),
        decreases v@.len() - i,
    {
        let c = v[i];
        let ghost prefix = v@.subrange(start as int, i as int);
        let ghost next = v@.subrange(start as int, i + 1);
        assert(next.drop_last() =~= prefix);
        if !('0' <= c && c <= '9') {
            assert(!all_digits(d)) by {
                assert(d[i - start] == c);
            }
            return None;
        }
        let digit: u64 = (c as u32 - 48) as u64;
        if value > (u64::MAX - digit) / 10 {
            proof {
                assert(value * 10 + digit > u64::MAX) by (nonlinear_arith)
                    requires
                        value > (u64::MAX - digit) / 10,
                        digit <= 9,
                ;
                lemma_digits_grow(d, (i - start + 1) as int);
                assert(d.subrange(0, i - start + 1) =~= next);
            }
            return None;
        }
        assert(value * 10 + digit <= u64::MAX) by (nonlinear_arith)
            requires
                value <= (u64::MAX - digit) / 10,
                digit <= 9,
        ;
        value = value * 10 + digit;
        i += 1;
    }
    assert(v@.subrange(start as int, v@.len() as int) =~= d);
    Some(value)
}

/// Reading back a number written in decimal gives the number: the digits that
/// `decimal` writes are ASCII digits that spell it, and `parse_u64` reads them back.
pub proof fn law_decimal_reads_back(n: u64)
    ensures
        all_digits(decimal(n as nat)),
        digits_value(decimal(n as nat)) == n,
        spec_parse_u64(decimal(n as nat)) == Some(n),
{
    lemma_decimal_digits(n as nat);
}

proof fn lemma_decimal_digits(n: nat)
    ensures
        all_digits(decimal(n)),
        digits_value(decimal(n)) == n,
        decimal(n).len() >= 1,
    decreases n,
{
    assert((digit_char(n % 10) as int) == 48 + n % 10);
    if n < 10 {
        let s = decimal(n);
        assert(s.drop_last() =~= Seq::<char>::empty());
        assert(s.last() == digit_char(n % 10));
        assert(n % 10 == n);
        assert(digits_value(s) == digits_value(s.drop_last()) * 10 + n % 10);
    } else {
        lemma_decimal_digits(n / 10);
        let t = decimal(n / 10);
        let s = t.push(digit_char(n % 10));
        assert(s.drop_last() =~= t);
        assert(s.last() == digit_char(n % 10));
        assert(n == (n / 10) * 10 + n % 10) by (nonlinear_arith);
        assert(digits_value(s) == digits_value(t) * 10 + n % 10);
        assert forall|i: int| 0 <= i < s.len() implies '0' <= #[trigger] s[i] <= '9' by {
            if i < t.len() {
                assert(s[i] == t[i]);
            }
        }
    }
}

/// The value of digits never falls below the value of a prefix of them.
proof fn lemma_digits_grow(d: Seq<char>, k: int)
    requires
        0 <= k <= d.len(),
    ensures
        digits_value(d.subrange(0, k)) <= digits_value(d),
    decreases d.len() - k,
{
    if k < d.len() {
        lemma_digits_grow(d, k + 1);
        assert(d.subrange(0, k + 1).drop_last() =~= d.subrange(0, k));
        let x = d.subrange(0, k + 1);
        assert(digits_value(x) >= digits_value(x.drop_last()) * 10);
    } else {
        assert(d.subrange(0, k) =~= d);
    }
}

/// The value given to a command-line flag: the first argument that starts with
/// `prefix`, with every leading repetition of `prefix` removed.
pub open spec fn flag_value_text(args: Seq<String>, prefix: Seq<char>) -> Option<Seq<char>>
    decreases args.len(),
{
    if args.len() == 0 {
        None
    } else if starts_with(args[0]@, prefix) {
        Some(trim_start_all(args[0]@, prefix))
    } else {
        flag_value_text(args.drop_first(), prefix)
    }
}

/// The number given to a command-line flag, or `default` when the flag is missing or
/// its first occurrence is not a number.
pub open spec fn numeric_flag_text(args: Seq<String>, prefix: Seq<char>, default: u64) -> u64 {
    match flag_value_text(args, prefix) {
        Some(v) => match spec_parse_u64(v) {
            Some(n) => n,
            None => default,
        },
        None => default,
    }
}

/// The path `name` under the directory `base`, as `PathBuf::join` forms it for a
/// relative `name`: a separator goes between them unless `base` is empty or already
/// ends with one.
pub open spec fn join_path(base: Seq<char>, name: Seq<char>) -> Seq<char> {
    if base.len() == 0 || ends_with(base, "/"@) {
        base + name
    } else {
        base + "/"@ + name
    }
}

/// The value given to the command-line flag `prefix`.
pub fn flag_value(args: &Vec<String>, prefix: &str) -> (value: Option<String>)
    ensures
        match flag_value_text(args@, prefix@) {
            Some(v) => value is Some && value->0@ == v,
            None => value is None,
        },
{
    let pat = chars_of(prefix);
    let mut i: usize = 0;
    assert(args@.subrange(0, args@.len() as int) =~= args@);
    while i < args.len()
        invariant
            pat@ == prefix@,
            i <= args@.len(),
            flag_value_text(args@.subrange(i as int, args@.len() as int), prefix@)
                == flag_value_text(args@, prefix@),
        decreases args@.len() - i,
    {
        let ghost rest = args@.subrange(i as int, args@.len() as int);
        assert(rest.drop_first() =~= args@.subrange(i + 1, args@.len() as int));
        let arg = chars_of(args[i].as_str());
        if starts_with_chars(&arg, &pat) {
            let v = trim_start_chars(&arg, &pat);
            return Some(string_of(&v));
        }
        i += 1;
    }
    None
}

/// The number given to the command-line flag `prefix`, or `default`.
pub fn numeric_flag(args: &Vec<String>, prefix: &str, default: u64) -> (n: u64)
    ensures
        n == numeric_flag_text(args@, prefix@, default),
{
    match flag_value(args, prefix) {
        Some(v) => match parse_u64(v.as_str()) {
            Some(n) => n,
            None => default,
        },
        None => default,
    }
}

/// The path `name` under the directory `base`.
pub fn join(base: &str, name: &str) -> (path: String)
    ensures
        path@ == join_path(base@, name@),
{
    let b = chars_of(base);
    proof {
        reveal_strlit("/");
    }
    let mut path = String::new();
    push_str(&mut path, base);
    if b.len() > 0 && b[b.len() - 1] != '/' {
        push_char(&mut path, '/');
        assert(!ends_with(base@, "/"@)) by {
            assert(base@.subrange(base@.len() - 1, base@.len() as int)[0] == b@[b@.len() - 1]);
        }
    } else if b.len() > 0 {
        assert(base@.subrange(base@.len() - 1, base@.len() as int) =~= "/"@);
    }
    push_str(&mut path, name);
    assert(path@ =~= join_path(base@, name@));
    path
}

/// A path flag's value, or `default`.
fn path_flag(args: &Vec<String>, prefix: &str, default: &str) -> (path: String)
    ensures
        path@ == (match flag_value_text(args@, prefix@) {
            Some(v) => v,
            None => default@,
        }),
{
    match flag_value(args, prefix) {
        Some(v) => v,
        None => {
            let mut d = String::new();
            push_str(&mut d, default);
            d
        },
    }
}

impl AppState {
    /// The settings that the command-line arguments `args` (the program's name among
    /// them) give: `-d=` recordings, `-t=` thumbnails, `-m=` mirakc API, `-f=` ffmpeg,
    /// `-s=` thumbnail offset, `-trash=` and `-tt=` the trash directories (by default
    /// `.trash` under the recordings and thumbnails), `-ttl=` days in the trash and
    /// `-cleanup=` seconds between cleanups.
    pub fn from_args(args: &Vec<String>) -> (state: AppState)
        ensures
            state.recorded_dir@ == (match flag_value_text(args@, "-d="@) {
                Some(v) => v,
                None => "/var/lib/mirakc/recorded"@,
            }),
            state.thumbnails_dir@ == (match flag_value_text(args@, "-t="@) {
                Some(v) => v,
                None => "/var/lib/mirakc/thumbnails"@,
            }),
            state.mirakc_api@ == (match flag_value_text(args@, "-m="@) {
                Some(v) => v,
                None => "http://localhost:40772"@,
            }),
            state.ffmpeg_path@ == (match flag_value_text(args@, "-f="@) {
                Some(v) => v,
                None => "/usr/bin/ffmpeg"@,
            }),
            state.thumbnail_offset == numeric_flag_text(args@, "-s="@, 5),
            state.trash_dir@ == (match flag_value_text(args@, "-trash="@) {
                Some(v) => v,
                None => join_path(state.recorded_dir@, ".trash"@),
            }),
            state.trash_thumb_dir@ == (match flag_value_text(args@, "-tt="@) {
                Some(v) => v,
                None => join_path(state.thumbnails_dir@, ".trash"@),
            }),
            state.trash_ttl_days == numeric_flag_text(args@, "-ttl="@, 7),
            state.cleanup_interval_secs == numeric_flag_text(args@, "-cleanup="@, 3600),
    {
        let recorded_dir = path_flag(args, "-d=", "/var/lib/mirakc/recorded");
        let thumbnails_dir = path_flag(args, "-t=", "/var/lib/mirakc/thumbnails");
        let mirakc_api = path_flag(args, "-m=", "http://localhost:40772");
        let ffmpeg_path = path_flag(args, "-f=", "/usr/bin/ffmpeg");
        let thumbnail_offset = numeric_flag(args, "-s=", 5);
        let trash_dir = match flag_value(args, "-trash=") {
            Some(v) => v,
            None => join(recorded_dir.as_str(), ".trash"),
        };
        let trash_thumb_dir = match flag_value(args, "-tt=") {
            Some(v) => v,
            None => join(thumbnails_dir.as_str(), ".trash"),
        };
        let trash_ttl_days = numeric_flag(args, "-ttl=", 7);
        let cleanup_interval_secs = numeric_flag(args, "-cleanup=", 3600);
        AppState {
            recorded_dir,
            thumbnails_dir,
            mirakc_api,
            ffmpeg_path,
            thumbnail_offset,
            trash_dir,
            trash_thumb_dir,
            trash_ttl_days,
            cleanup_interval_secs,
        }
    }
}

} // verus!
