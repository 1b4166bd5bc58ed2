use vstd::prelude::*;

use crate::recorded::{basename, basename_chars};
use crate::text::{
    decimal, last_index_of, last_index_of_char, lemma_last_index_of, push_decimal,
    push_str, slice_chars, string_of,
};

verus! {

/// Declares `serde_json::Value` so that a program's extended description can be held;
/// the library only carries such values along and reads nothing of them.
#[verifier::external_type_specification]
#[verifier::external_body]
pub struct ExJsonValue(serde_json::Value);

/// A program as the mirakc 3.x API describes it.
#[derive(Debug, Clone)]
pub struct Program {
    pub id: u64,
    pub event_id: u16,
    pub service_id: u16,
    pub network_id: u16,
    pub start_at: Option<i64>,
    pub duration: Option<i64>,
    pub is_free: bool,
    pub name: Option<String>,
    pub description: Option<String>,
    pub extended: Option<serde_json::Value>,
    pub video: Option<ProgramVideo>,
    pub audio: Option<ProgramAudio>,
    pub audios: Vec<ProgramAudio>,
    pub genres: Option<Vec<EpgGenre>>,
    pub series: Option<ProgramSeries>,
    pub related_items: Vec<ProgramRelatedItem>,
}

/// The video descriptor of a program.
#[derive(Debug, Clone)]
pub struct ProgramVideo {
    pub video_type: Option<String>,
    pub resolution: Option<String>,
    pub stream_content: Option<u8>,
    pub component_type: Option<u8>,
}

/// An audio descriptor of a program.
#[derive(Debug, Clone)]
pub struct ProgramAudio {
    pub service_name: Option<String>,
    pub audio_type: Option<String>,
    pub content_type: u8,
    pub sampling_rate: i32,
    pub bit_rate: u8,
    pub main_component_flag: Option<bool>,
}

/// An EPG genre.
#[derive(Debug, Clone)]
pub struct EpgGenre {
    pub lv1: u8,
    pub lv2: u8,
    pub un1: u8,
    pub un2: u8,
}

/// The series a program belongs to.
#[derive(Debug, Clone)]
pub struct ProgramSeries {
    pub id: u16,
    pub repeat: u8,
    pub pattern: u8,
    pub expire_at: i64,
    pub episode: u16,
    pub last_episode: u16,
    pub name: String,
}

/// A program related to another one.
#[derive(Debug, Clone)]
pub struct ProgramRelatedItem {
    pub group_type: String,
    pub network_id: Option<u16>,
    pub service_id: u16,
    pub event_id: u16,
}

/// A service as the mirakc 3.x API describes it.
#[derive(Debug, Clone)]
pub struct Service {
    pub id: u64,
    pub service_id: u16,
    pub network_id: u16,
    pub service_type: u16,
    pub logo_id: i16,
    pub remote_control_key_id: u16,
    pub name: String,
    pub channel: ServiceChannel,
    pub has_logo_data: bool,
}

/// The channel of a service.
#[derive(Debug, Clone)]
pub struct ServiceChannel {
    pub channel_type: String,
    pub channel: String,
}

/// What a recording's listing shows of its program.
#[derive(Debug, Clone)]
pub struct ProgramInfo {
    pub program_id: String,
    pub name: String,
    pub service_id: u64,
    pub service_name: String,
    pub start_at: Option<u64>,
    pub duration: Option<u64>,
}

/// A request to record a program.
#[derive(Debug, Clone)]
pub struct ScheduleInput {
    pub program_id: u64,
    pub options: ScheduleOptions,
    pub tags: Vec<String>,
}

/// The options of a recording.
#[derive(Debug, Clone)]
pub struct ScheduleOptions {
    pub content_path: Option<String>,
    pub custom_tuner: Option<String>,
    pub quality: Option<String>,
    pub priority: Option<i32>,
}

impl Default for ScheduleOptions {
    fn default() -> (options: Self)
        ensures
            options.content_path is None,
            options.custom_tuner is None,
            options.quality is None,
            options.priority is None,
    {
        ScheduleOptions { content_path: None, custom_tuner: None, quality: None, priority: None }
    }
}

/// A scheduled recording.
#[derive(Debug, Clone)]
pub struct RecordingSchedule {
    pub state: String,
    pub program: Program,
    pub options: ScheduleOptions,
    pub tags: Vec<String>,
    pub failed_reason: Option<String>,
}

/// The program id in a recording's file name: what comes before the last `_` of its
/// base name (see `basename`); none when the base name has no `_`.
pub open spec fn spec_program_id(filename: Seq<char>) -> Option<Seq<char>> {
    let base = basename(filename);
    match last_index_of(base, '_') {
        Some(i) => Some(base.subrange(0, i)),
        None => None,
    }
}

/// The program id in a recording's file name.
pub fn extract_program_id_from_filename(filename: &str) -> (id: Option<String>)
    ensures
        match spec_program_id(filename@) {
            Some(p) => id is Some && id->0@ == p,
            None => id is None,
        },
        id is None <==> !basename(filename@).contains('_'),
        id matches Some(p) ==> {
            let base = basename(filename@);
            &&& p@.len() < base.len()
            &&& base[p@.len() as int] == '_'
            &&& base.subrange(0, p@.len() as int) == p@
            &&& !base.subrange(p@.len() as int + 1, base.len() as int).contains('_')
        },
{
    let base = basename_chars(filename);
    proof {
        lemma_last_index_of(base@, '_');
    }
    match last_index_of_char(&base, '_') {
        Some(i) => {
            let id = slice_chars(&base, 0, i);
            proof {
                let rest = base@.subrange(i + 1, base@.len() as int);
                assert forall|j: int| 0 <= j < rest.len() implies rest[j] != '_' by {
                    assert(rest[j] == base@[i + 1 + j]);
                }
                assert(base@.contains('_')) by {
                    assert(base@[i as int] == '_');
                }
            }
            Some(string_of(&id))
        },
        None => None,
    }
}

/// The URL of a program.
pub open spec fn program_url_text(api_base: Seq<char>, program_id: Seq<char>) -> Seq<char> {
    api_base + "/api/programs/"@ + program_id
}

/// The URL of a service.
pub open spec fn service_url_text(api_base: Seq<char>, service_id: u64) -> Seq<char> {
    api_base + "/api/services/"@ + decimal(service_id as nat)
}

/// The URL of the recording schedules.
pub open spec fn schedules_url_text(api_base: Seq<char>) -> Seq<char> {
    api_base + "/api/recording/schedules"@
}

/// The URL of the recording schedule of one program.
pub open spec fn schedule_url_text(api_base: Seq<char>, program_id: u64) -> Seq<char> {
    api_base + "/api/recording/schedules/"@ + decimal(program_id as nat)
}

/// The URL of the program list, with the time range as query when both ends are given.
pub open spec fn programs_url_text(api_base: Seq<char>, start_at: Option<u64>, end_at: Option<u64>) -> Seq<
    char,
> {
    match (start_at, end_at) {
        (Some(s), Some(e)) => api_base + "/api/programs"@ + "?startAt="@ + decimal(s as nat)
            + "&endAt="@ + decimal(e as nat),
        _ => api_base + "/api/programs"@,
    }
}

/// The URL of the service list.
pub open spec fn services_url_text(api_base: Seq<char>) -> Seq<char> {
    api_base + "/api/services"@
}

/// The URL of a program.
pub fn program_url(api_base: &str, program_id: &str) -> (url: String)
    ensures
        url@ == program_url_text(api_base@, program_id@),
{
    let mut url = String::new();
    push_str(&mut url, api_base);
    push_str(&mut url, "/api/programs/");
    push_str(&mut url, program_id);
    assert(url@ =~= program_url_text(api_base@, program_id@));
    url
}

/// The URL of a service.
pub fn service_url(api_base: &str, service_id: u64) -> (url: String)
    ensures
        url@ == service_url_text(api_base@, service_id),
{
    let mut url = String::new();
    push_str(&mut url, api_base);
    push_str(&mut url, "/api/services/");
    push_decimal(&mut url, service_id);
    assert(url@ =~= service_url_text(api_base@, service_id));
    url
}

/// The URL of the recording schedules.
pub fn schedules_url(api_base: &str) -> (url: String)
    ensures
        url@ == schedules_url_text(api_base@),
{
    let mut url = String::new();
    push_str(&mut url, api_base);
    push_str(&mut url, "/api/recording/schedules");
    url
}

/// The URL of the recording schedule of one program.
pub fn schedule_url(api_base: &str, program_id: u64) -> (url: String)
    ensures
        url@ == schedule_url_text(api_base@, program_id),
{
    let mut url = String::new();
    push_str(&mut url, api_base);
    push_str(&mut url, "/api/recording/schedules/");
    push_decimal(&mut url, program_id);
    assert(url@ =~= schedule_url_text(api_base@, program_id));
    url
}

/// The URL of the program list.
pub fn programs_url(api_base: &str, start_at: Option<u64>, end_at: Option<u64>) -> (url: String)
    ensures
        url@ == programs_url_text(api_base@, start_at, end_at),
{
    let mut url = String::new();
    push_str(&mut url, api_base);
    push_str(&mut url, "/api/programs");
    if let (Some(s), Some(e)) = (start_at, end_at) {
        push_str(&mut url, "?startAt=");
        push_decimal(&mut url, s);
        push_str(&mut url, "&endAt=");
        push_decimal(&mut url, e);
    }
    assert(url@ =~= programs_url_text(api_base@, start_at, end_at));
    url
}

/// The URL of the service list.
pub fn services_url(api_base: &str) -> (url: String)
    ensures
        url@ == services_url_text(api_base@),
{
    let mut url = String::new();
    push_str(&mut url, api_base);
    push_str(&mut url, "/api/services");
    url
}

/// `不明` ("unknown"), shown where a name is missing.
pub open spec fn unknown_text() -> Seq<char> {
    "不明"@
}

/// `不明` ("unknown").
pub fn unknown_name() -> (name: String)
    ensures
        name@ == unknown_text(),
{
    let mut name = String::new();
    push_str(&mut name, "不明");
    name
}

/// A signed time or length as the listing keeps it: its 64 bits read unsigned.
pub open spec fn as_unsigned(v: Option<i64>) -> Option<u64> {
    match v {
        Some(x) => Some(x as u64),
        None => None,
    }
}

fn to_unsigned(v: Option<i64>) -> (r: Option<u64>)
    ensures
        r == as_unsigned(v),
{
    match v {
        Some(x) => Some(x as u64),
        None => None,
    }
}

/// The API id of the service that broadcasts `program`: mirakc numbers a service by its
/// network id times 100000 plus its service id.
pub open spec fn spec_service_id_of(program: Program) -> u64 {
    (program.network_id * 100000 + program.service_id) as u64
}

/// The API id of the service that broadcasts `program`.
pub fn service_id_of(program: &Program) -> (id: u64)
    ensures
        id == spec_service_id_of(*program),
        id == program.network_id * 100000 + program.service_id,
{
    program.network_id as u64 * 100000 + program.service_id as u64
}

/// What a listing shows of `program`, broadcast by `service`.
///
/// The service id and name are those of the service record, and a program without a
/// name is shown as `不明`.
pub fn program_info_from(program: Program, service: Service) -> (info: ProgramInfo)
    ensures
        info.program_id@ == decimal(program.id as nat),
        info.name@ == (match program.name {
            Some(n) => n@,
            None => unknown_text(),
        }),
        info.service_id == service.id,
        info.service_name@ == service.name@,
        info.start_at == as_unsigned(program.start_at),
        info.duration == as_unsigned(program.duration),
{
    let mut program_id = String::new();
    push_decimal(&mut program_id, program.id);
    let name = match program.name {
        Some(n) => n,
        None => unknown_name(),
    };
    ProgramInfo {
        program_id,
        name,
        service_id: service.id,
        service_name: service.name,
        start_at: to_unsigned(program.start_at),
        duration: to_unsigned(program.duration),
    }
}

/// The error text of a refused schedule creation.
pub open spec fn creation_failure_text(status: u16, body: Seq<char>) -> Seq<char> {
    "schedule creation failed: "@ + decimal(status as nat) + " - "@ + body
}

/// The error text of a refused schedule deletion.
pub open spec fn deletion_failure_text(status: u16) -> Seq<char> {
    "schedule deletion failed: "@ + decimal(status as nat)
}

/// The error text of a refused schedule creation, with the status and body of the
/// reply.
pub fn schedule_creation_error(status: u16, body: &str) -> (text: String)
    ensures
        text@ == creation_failure_text(status, body@),
{
    let mut text = String::new();
    push_str(&mut text, "schedule creation failed: ");
    push_decimal(&mut text, status as u64);
    push_str(&mut text, " - ");
    push_str(&mut text, body);
    assert(text@ =~= creation_failure_text(status, body@));
    text
}

/// The error text of a refused schedule deletion, with the status of the reply.
pub fn schedule_deletion_error(status: u16) -> (text: String)
    ensures
        text@ == deletion_failure_text(status),
{
    let mut text = String::new();
    push_str(&mut text, "schedule deletion failed: ");
    push_decimal(&mut text, status as u64);
    text
}

} // verus!
