use vstd::prelude::*;

use crate::mirakc::{unknown_name, unknown_text, ProgramInfo};
use crate::tsdropcheck::{duration_from_pcr, zero_clock_text};
use crate::text::{chars_of, contains, contains_chars, same_text, string_of, trim_end_all, trim_end_chars};

verus! {

/// A recording's file name without its `.m2ts` and then `.ts` endings (each removed as
/// often as it repeats at the end).
pub open spec fn basename(filename: Seq<char>) -> Seq<char> {
    trim_end_all(trim_end_all(filename, ".m2ts"@), ".ts"@)
}

/// The characters of a recording's file name without its `.m2ts` and `.ts` endings.
pub fn basename_chars(filename: &str) -> (v: Vec<char>)
    ensures
        v@ == basename(filename@),
{
    let f = chars_of(filename);
    let m2ts = chars_of(".m2ts");
    let ts = chars_of(".ts");
    let t = trim_end_chars(&f, &m2ts);
    trim_end_chars(&t, &ts)
}

/// A recording's file name without its `.m2ts` and `.ts` endings.
pub fn file_basename(filename: &str) -> (base: String)
    ensures
        base@ == basename(filename@),
{
    let v = basename_chars(filename);
    string_of(&v)
}

/// Whether a file extension marks a recording: `ts` or `m2ts`.
pub fn is_recording_extension(ext: &str) -> (is_recording: bool)
    ensures
        is_recording == (ext@ == "ts"@ || ext@ == "m2ts"@),
{
    same_text(ext, "ts") || same_text(ext, "m2ts")
}

/// The index of the first of `ids` that is `id`.
pub fn position_of_id(ids: &Vec<String>, id: &str) -> (pos: Option<usize>)
    ensures
        match pos {
            Some(i) => i < ids@.len() && ids@[i as int]@ == id@ && forall|j: int|
                0 <= j < i ==> ids@[j]@ != id@,
            None => forall|j: int| 0 <= j < ids@.len() ==> ids@[j]@ != id@,
        },
{
    let mut i: usize = 0;
    while i < ids.len()
        invariant
            i <= ids@.len(),
            forall|j: int| 0 <= j < i ==> ids@[j]@ != id@,
        decreases ids@.len() - i,
    {
        if same_text(ids[i].as_str(), id) {
            return Some(i);
        }
        i += 1;
    }
    None
}

/// Whether the program or channel name of a listing entry holds `q`.
pub open spec fn entry_matches(program_name: Seq<char>, channel_name: Seq<char>, q: Seq<char>) -> bool {
    contains(program_name, q) || contains(channel_name, q)
}

/// The indices below `k` of the entries whose program or channel name holds `q`, in
/// ascending order.
pub open spec fn matching_entries(
    program_names: Seq<String>,
    channel_names: Seq<String>,
    q: Seq<char>,
    k: int,
) -> Seq<usize>
    decreases k,
{
    if k <= 0 {
        Seq::empty()
    } else {
        let rest = matching_entries(program_names, channel_names, q, k - 1);
        if entry_matches(program_names[k - 1]@, channel_names[k - 1]@, q) {
            rest.push((k - 1) as usize)
        } else {
            rest
        }
    }
}

/// A search keeps exactly the entries whose program name or channel name holds the
/// search text, each once and in the order of the listing.
pub proof fn law_search_keeps_matching_entries(
    program_names: Seq<String>,
    channel_names: Seq<String>,
    q: Seq<char>,
    k: int,
)
    requires
        0 <= k <= program_names.len(),
        program_names.len() == channel_names.len(),
        program_names.len() <= usize::MAX,
    ensures
        forall|i: int|
            0 <= i < k ==> (matching_entries(program_names, channel_names, q, k).contains(
                i as usize,
            ) <==> (contains(program_names[i]@, q) || contains(channel_names[i]@, q))),
        forall|a: int, b: int|
            0 <= a < b < matching_entries(program_names, channel_names, q, k).len() ==> (
            #[trigger] matching_entries(program_names, channel_names, q, k)[a]) < (
            #[trigger] matching_entries(program_names, channel_names, q, k)[b]),
        forall|a: int|
            0 <= a < matching_entries(program_names, channel_names, q, k).len() ==> (
            #[trigger] matching_entries(program_names, channel_names, q, k)[a]) < k,
    decreases k,
{
    if k > 0 {
        law_search_keeps_matching_entries(program_names, channel_names, q, k - 1);
        let rest = matching_entries(program_names, channel_names, q, k - 1);
        let all = matching_entries(program_names, channel_names, q, k);
        assert forall|i: int| 0 <= i < k implies (all.contains(i as usize) <==> (contains(
            program_names[i]@,
            q,
        ) || contains(channel_names[i]@, q))) by {
            if i < k - 1 {
                if all.contains(i as usize) && !rest.contains(i as usize) {
                    let j = choose|j: int| 0 <= j < all.len() && all[j] == i as usize;
                    assert(j == rest.len());
                }
                if rest.contains(i as usize) {
                    let j = choose|j: int| 0 <= j < rest.len() && rest[j] == i as usize;
                    assert(all[j] == i as usize);
                }
            } else {
                if entry_matches(program_names[i]@, channel_names[i]@, q) {
                    assert(all[rest.len() as int] == i as usize);
                } else if all.contains(i as usize) {
                    let j = choose|j: int| 0 <= j < all.len() && all[j] == i as usize;
                    assert(rest[j] < k - 1);
                }
            }
        }
    }
}

/// The indices of the listing entries whose program or channel name holds `q`, in
/// their order.
pub fn filter_by_query(program_names: &Vec<String>, channel_names: &Vec<String>, q: &str) -> (kept: Vec<usize>)
    requires
        program_names@.len() == channel_names@.len(),
    ensures
        kept@ == matching_entries(program_names@, channel_names@, q@, program_names@.len() as int),
{
    let pattern = chars_of(q);
    let mut kept: Vec<usize> = Vec::new();
    let mut i: usize = 0;
    while i < program_names.len()
        invariant
            program_names@.len() == channel_names@.len(),
            pattern@ == q@,
            i <= program_names@.len(),
            kept@ == matching_entries(program_names@, channel_names@, q@, i as int),
        decreases program_names@.len() - i,
    {
        let p = chars_of(program_names[i].as_str());
        let c = chars_of(channel_names[i].as_str());
        if contains_chars(&p, &pattern) || contains_chars(&c, &pattern) {
            kept.push(i);
        }
        i += 1;
    }
    kept
}

/// The program and channel names a listing shows for a recording: those of its program,
/// or `不明` for both when its program is unknown.
pub fn listing_names(program: &Option<ProgramInfo>) -> (names: (String, String))
    ensures
        names.0@ == (match program {
            Some(p) => p.name@,
            None => unknown_text(),
        }),
        names.1@ == (match program {
            Some(p) => p.service_name@,
            None => unknown_text(),
        }),
{
    match program {
        Some(p) => (p.name.clone(), p.service_name.clone()),
        None => (unknown_name(), unknown_name()),
    }
}

/// The recording time a listing shows: the checked duration, or `00:00:00.00` for a
/// recording that could not be checked.
pub fn recording_time_or_zero(duration: Option<String>) -> (time: String)
    ensures
        time@ == (match duration {
            Some(d) => d@,
            None => zero_clock_text(),
        }),
{
    match duration {
        Some(d) => d,
        None => duration_from_pcr(None, None),
    }
}

} // verus!
