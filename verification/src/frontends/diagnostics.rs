//! Reviewed diagnostic events and independent terminal-output controls.
use vstd::prelude::*;

use crate::domain::{Envelope, Error, ErrorCode};
use crate::encoding::{digit_of, hex_digit};
use crate::text::{chars_of, same, string_of};

verus! {

#[derive(Clone, Copy, Debug, PartialEq, Eq, Structural)]
pub enum LogFormat {
    Auto,
    Off,
    Json,
    Compact,
}

#[derive(Clone, Copy, Debug, PartialEq, Eq, Structural)]
pub enum LogLevel {
    Error,
    Warn,
    Info,
    Debug,
    Trace,
}

#[derive(Clone, Copy, Debug, PartialEq, Eq, Structural)]
pub enum Color {
    Auto,
    Always,
    Never,
}

impl Default for LogFormat {
    fn default() -> (r: Self)
        ensures
            r == LogFormat::Auto,
    {
        LogFormat::Auto
    }
}

impl Default for LogLevel {
    fn default() -> (r: Self)
        ensures
            r == LogLevel::Warn,
    {
        LogLevel::Warn
    }
}

impl Default for Color {
    fn default() -> (r: Self)
        ensures
            r == Color::Auto,
    {
        Color::Auto
    }
}

#[derive(Clone, Copy, Debug, PartialEq, Eq, Structural)]
pub struct Options {
    pub log_format: LogFormat,
    pub log_level: LogLevel,
    pub color: Color,
}

impl Default for Options {
    fn default() -> (r: Self)
        ensures
            r == (Options {
                log_format: LogFormat::Auto,
                log_level: LogLevel::Warn,
                color: Color::Auto,
            }),
    {
        Options { log_format: LogFormat::Auto, log_level: LogLevel::Warn, color: Color::Auto }
    }
}

impl LogLevel {
    /// How much detail the level asks for.
    pub open spec fn detail(self) -> int {
        match self {
            LogLevel::Error => 1,
            LogLevel::Warn => 2,
            LogLevel::Info => 3,
            LogLevel::Debug => 4,
            LogLevel::Trace => 5,
        }
    }

    fn rank(self) -> (r: u8)
        ensures
            r == self.detail(),
    {
        match self {
            LogLevel::Error => 1,
            LogLevel::Warn => 2,
            LogLevel::Info => 3,
            LogLevel::Debug => 4,
            LogLevel::Trace => 5,
        }
    }
}

/// How diagnostics are written. `Off` writes none.
#[derive(Clone, Copy, Debug, PartialEq, Eq, Structural)]
pub struct Plan {
    pub format: LogFormat,
    pub level: LogLevel,
}

impl Options {
    /// Chooses the form of diagnostics. Machine-readable output never has compact diagnostics beside it.
    pub fn plan(self, machine: bool) -> (r: Result<Plan, Error>)
        ensures
            match r {
                Ok(plan) => {
                    &&& !(machine && self.log_format is Compact)
                    &&& plan.level == self.log_level
                    &&& plan.format == (if self.log_format is Auto {
                        if machine {
                            LogFormat::Json
                        } else {
                            LogFormat::Compact
                        }
                    } else {
                        self.log_format
                    })
                },
                Err(error) => machine && self.log_format is Compact && error.reports(
                    ErrorCode::InvalidRequest,
                ),
            },
    {
        let format = match (self.log_format, machine) {
            (LogFormat::Compact, true) => {
                return Err(Error::new(ErrorCode::InvalidRequest));
            },
            (LogFormat::Auto, true) => LogFormat::Json,
            (LogFormat::Auto, false) => LogFormat::Compact,
            (format, _) => format,
        };
        Ok(Plan { format, level: self.log_level })
    }
}

/// The target of the events that may be written.
pub open spec fn reviewed_target() -> Seq<char> {
    "mailctl::diagnostic"@
}

impl Plan {
    /// An event is written only if it is a reviewed one; spans carry no text of their own.
    pub open spec fn writes(self, target: Seq<char>, span: bool, level: LogLevel) -> bool {
        target == reviewed_target() && (span || (!(self.format is Off) && level.detail()
            <= self.level.detail()))
    }

    pub fn allows(&self, target: &str, span: bool, level: LogLevel) -> (r: bool)
        ensures
            r == self.writes(target@, span, level),
    {
        same(target, "mailctl::diagnostic") && (span || (self.format != LogFormat::Off && level.rank()
            <= self.level.rank()))
    }
}

/// Events of other targets, such as those of dependencies, are never written.
pub proof fn foreign_events_stay_silent(plan: Plan, target: Seq<char>, span: bool, level: LogLevel)
    requires
        target != reviewed_target(),
    ensures
        !plan.writes(target, span, level),
{
}

impl Color {
    /// Colors are used on a terminal only, and never against the user's wish or `NO_COLOR`.
    pub fn enabled(self, terminal: bool, no_color: Option<&str>) -> (r: bool)
        ensures
            r == (terminal && !(self is Never) && (no_color matches Some(value) ==> value@.len()
                == 0)),
    {
        terminal && self != Color::Never && match no_color {
            Some(value) => value.is_empty(),
            None => true,
        }
    }
}

/// One correlation identity created before dispatch and retained in the result.
#[derive(Debug)]
pub struct Request {
    pub id: String,
}

impl Request {
    pub fn new(id: String) -> (r: Self)
        ensures
            r.id == id,
    {
        Request { id }
    }

    /// The identity that the events of the request carry.
    pub fn span(&self) -> (r: &str)
        ensures
            r@ == self.id@,
    {
        self.id.as_str()
    }

    pub fn envelope<T>(&self, result: Result<T, Error>) -> (r: Envelope<T>)
        ensures
            r.well_formed(),
            r.schema_version == 1,
            r.request_id@ == self.id@,
            match result {
                Ok(value) => r.result == Some(value),
                Err(error) => r.error == Some(error),
            },
    {
        Envelope::from_result(self.id.clone(), result)
    }
}

/// One of the errors whose text was written by this program and says more than its code.
pub open spec fn is_known(error: Error) -> bool {
    error.asks_for_setup() || error.names_obsolete_capacity() || error.names_schema()
        || error.names_draft_conflict()
}

fn known(error: &Error) -> (r: bool)
    ensures
        r == is_known(*error),
{
    if error.retryable {
        return false;
    }
    let text = error.message.as_str();
    match error.code {
        ErrorCode::InvalidRequest => same(
            text,
            "Configuration is missing or invalid; run mailctl setup",
        ) || same(text, "Remove obsolete runtime capacity settings from the configuration"),
        ErrorCode::JournalUnavailable => same(text, "Stored state has an incompatible schema"),
        ErrorCode::OperationConflict => same(
            text,
            "Draft operation was recorded with different content",
        ),
        _ => false,
    }
}

/// The text with which an error is told.
pub open spec fn told_message(error: Error) -> Seq<char> {
    if is_known(error) {
        error.message@
    } else {
        error.code.reviewed()
    }
}

/// The text of a failure as it may stand in diagnostics: reviewed text only, whatever the error carries.
pub fn reviewed_message(error: &Error) -> (r: String)
    ensures
        r@ == told_message(*error),
{
    // Public errors can carry caller-controlled text. Only emit reviewed messages.
    if known(error) {
        error.message.clone()
    } else {
        Error::new(error.code).message
    }
}

/// The text is one that this program wrote.
pub open spec fn is_reviewed(text: Seq<char>) -> bool {
    ||| text == "Configuration is missing or invalid; run mailctl setup"@
    ||| text == "Remove obsolete runtime capacity settings from the configuration"@
    ||| text == "Stored state has an incompatible schema"@
    ||| text == "Draft operation was recorded with different content"@
    ||| exists|code: ErrorCode| text == #[trigger] code.reviewed()
}

/// Whatever an error carries, its diagnostic text is one that this program wrote.
pub proof fn diagnostics_are_reviewed(error: Error)
    ensures
        is_reviewed(told_message(error)),
{
    if !is_known(error) {
        assert(error.code.reviewed() == error.code.reviewed());
    }
}

/// The last 128 characters of a source location, which are the useful ones.
pub open spec fn useful_suffix(location: Seq<char>) -> Seq<char> {
    if location.len() <= 128 {
        location
    } else {
        location.skip(location.len() - 128)
    }
}

pub fn location_suffix(location: &str) -> (r: String)
    ensures
        r@ == useful_suffix(location@),
        r@.len() <= 128,
{
    let chars = chars_of(location);
    let start: usize = if chars.len() <= 128 {
        0
    } else {
        chars.len() - 128
    };
    let suffix = string_of(&chars, start, chars.len());
    assert(suffix@ =~= useful_suffix(location@));
    suffix
}

/// A number in as few hexadecimal digits as it takes.
pub open spec fn hex_number(value: nat) -> Seq<char>
    decreases value,
{
    if value < 16 {
        seq![hex_digit(value as int)]
    } else {
        hex_number(value / 16).push(hex_digit((value % 16) as int))
    }
}

fn push_hex(out: &mut Vec<char>, value: u32)
    ensures
        final(out)@ == old(out)@ + hex_number(value as nat),
    decreases value,
{
    let ghost before = out@;
    if value >= 16 {
        push_hex(out, value / 16);
    }
    out.push(digit_of((value % 16) as u8));
    assert(out@ =~= before + hex_number(value as nat));
}

/// A character as it is written where only plain text may stand.
pub open spec fn escaped_char(c: char) -> Seq<char> {
    if c == '\t' {
        seq!['\\', 't']
    } else if c == '\r' {
        seq!['\\', 'r']
    } else if c == '\n' {
        seq!['\\', 'n']
    } else if c == '\'' || c == '"' || c == '\\' {
        seq!['\\', c]
    } else if ' ' <= c <= '~' {
        seq![c]
    } else {
        seq!['\\', 'u', '{'] + hex_number(c as nat) + seq!['}']
    }
}

/// A text as it is written where only plain text may stand.
pub open spec fn escaped_text(text: Seq<char>) -> Seq<char>
    decreases text.len(),
{
    if text.len() == 0 {
        Seq::empty()
    } else {
        escaped_text(text.drop_last()) + escaped_char(text.last())
    }
}

fn push_escaped(out: &mut Vec<char>, c: char)
    ensures
        final(out)@ == old(out)@ + escaped_char(c),
{
    let ghost before = out@;
    if ' ' <= c && c <= '~' && c != '\'' && c != '"' && c != '\\' {
        out.push(c);
    } else {
        out.push('\\');
        if c == '\t' {
            out.push('t');
        } else if c == '\r' {
            out.push('r');
        } else if c == '\n' {
            out.push('n');
        } else if c == '\'' || c == '"' || c == '\\' {
            out.push(c);
        } else {
            out.push('u');
            out.push('{');
            push_hex(out, c as u32);
            out.push('}');
        }
    }
    assert(out@ =~= before + escaped_char(c));
}

/// What is told of the source location of a failure: its useful end, escaped, in at most 256 characters.
pub open spec fn told_location(location: Seq<char>) -> Seq<char> {
    let text = escaped_text(useful_suffix(location));
    if text.len() <= 256 {
        text
    } else {
        text.take(256)
    }
}

pub fn panic_location(location: &str) -> (r: String)
    ensures
        r@ == told_location(location@),
{
    let suffix = location_suffix(location);
    let chars = chars_of(suffix.as_str());
    let mut out: Vec<char> = Vec::new();
    for i in 0..chars.len()
        invariant
            out@ == escaped_text(chars@.take(i as int)),
    {
        assert(chars@.take(i + 1).drop_last() =~= chars@.take(i as int));
        push_escaped(&mut out, chars[i]);
    }
    assert(chars@.take(chars@.len() as int) =~= chars@);
    let end: usize = if out.len() <= 256 {
        out.len()
    } else {
        256
    };
    let told = string_of(&out, 0, end);
    assert(told@ =~= told_location(location@));
    told
}

/// A location is told in printable ASCII, whatever characters it has.
pub proof fn locations_are_inert(location: Seq<char>, i: int)
    requires
        0 <= i < told_location(location).len(),
    ensures
        ' ' <= told_location(location)[i] <= '~',
        told_location(location).len() <= 256,
{
    escapes_are_plain(useful_suffix(location));
    assert(told_location(location)[i] == escaped_text(useful_suffix(location))[i]);
}

proof fn escapes_are_plain(text: Seq<char>)
    ensures
        forall|i: int|
            0 <= i < escaped_text(text).len() ==> ' ' <= #[trigger] escaped_text(text)[i] <= '~',
    decreases text.len(),
{
    if text.len() > 0 {
        let (before, last) = (escaped_text(text.drop_last()), escaped_char(text.last()));
        escapes_are_plain(text.drop_last());
        digits_are_plain(text.last() as nat);
        assert forall|i: int| 0 <= i < last.len() implies ' ' <= #[trigger] last[i] <= '~' by {
            let digits = hex_number(text.last() as nat);
            if last.len() > 2 && 3 <= i < last.len() - 1 {
                assert(last[i] == digits[i - 3]);
            }
        }
        assert forall|i: int| 0 <= i < escaped_text(text).len() implies ' '
            <= #[trigger] escaped_text(text)[i] <= '~' by {
            if i < before.len() {
                assert(escaped_text(text)[i] == before[i]);
            } else {
                assert(escaped_text(text)[i] == last[i - before.len()]);
            }
        }
    }
}

proof fn digits_are_plain(value: nat)
    ensures
        forall|i: int|
            0 <= i < hex_number(value).len() ==> ' ' <= #[trigger] hex_number(value)[i] <= '~',
    decreases value,
{
    let digit = hex_digit((value % 16) as int);
    assert(' ' <= digit <= '~');
    if value >= 16 {
        digits_are_plain(value / 16);
        let before = hex_number(value / 16);
        assert forall|i: int| 0 <= i < hex_number(value).len() implies ' ' <= #[trigger] hex_number(
            value,
        )[i] <= '~' by {
            if i < before.len() {
                assert(hex_number(value)[i] == before[i]);
            }
        }
    }
}

/// The UUID that a text spells, in lower case with hyphens.
pub uninterp spec fn uuid_form(text: Seq<char>) -> Option<Seq<char>>;

/// A character of a written UUID.
pub open spec fn is_uuid_char(c: char) -> bool {
    '0' <= c <= '9' || 'a' <= c <= 'f' || c == '-'
}

/// `Uuid::parse_str`, and the UUID as `Display` writes it. The contract names the written form, which has 36
/// characters.
#[verifier::external_body]
fn parse_uuid(text: &str) -> (r: Option<String>)
    ensures
        match r {
            Some(form) => uuid_form(text@) == Some(form@) && form@.len() == 36 && forall|i: int|
                0 <= i < form@.len() ==> is_uuid_char(#[trigger] form@[i]),
            None => uuid_form(text@) is None,
        },
{
    Some(uuid::Uuid::parse_str(text).ok()?.to_string())
}

/// What is told of the identity of a request: the UUID that it is, and nothing of any other text.
pub fn told_request(parsed: Option<String>) -> (r: String)
    ensures
        r@ == (match parsed {
            Some(form) => form@,
            None => Seq::empty(),
        }),
{
    match parsed {
        Some(form) => form,
        None => String::new(),
    }
}

/// The identity of a request as it may stand in diagnostics, whatever a caller sent for it.
pub fn request_identity(request_id: &str) -> (r: String)
    ensures
        r@ == (match uuid_form(request_id@) {
            Some(form) => form,
            None => Seq::empty(),
        }),
        r@.len() == 36 || r@.len() == 0,
        forall|i: int| 0 <= i < r@.len() ==> is_uuid_char(#[trigger] r@[i]),
{
    told_request(parse_uuid(request_id))
}

/// The code and the text with which a failure is told.
#[derive(Debug, PartialEq, Eq)]
pub struct Failure {
    pub code: &'static str,
    pub message: String,
}

/// The event with which the end of an operation is told.
#[derive(Debug, PartialEq, Eq)]
pub struct Event {
    pub event: &'static str,
    pub request_id: String,
    pub failure: Option<Failure>,
}

/// An event as plain values: its name, the identity of its request, and the code and the text of a
/// failure.
pub struct EventView {
    pub event: Seq<char>,
    pub request_id: Seq<char>,
    pub failure: Option<(Seq<char>, Seq<char>)>,
}

impl View for Event {
    type V = EventView;

    open spec fn view(&self) -> EventView {
        EventView {
            event: self.event@,
            request_id: self.request_id@,
            failure: match self.failure {
                Some(failure) => Some((failure.code@, failure.message@)),
                None => None,
            },
        }
    }
}

/// What is told of the end of an operation, given the UUID that its request is known by, if it is
/// one.
pub open spec fn told_event(request: Option<Seq<char>>, error: Option<Error>) -> EventView {
    let request_id = match request {
        Some(form) => form,
        None => Seq::empty(),
    };
    match error {
        Some(error) => EventView {
            event: "operation_failed"@,
            request_id,
            failure: Some((error.code.named(), told_message(error))),
        },
        None => EventView { event: "operation_completed"@, request_id, failure: None },
    }
}

pub open spec fn error_of(error: Option<&Error>) -> Option<Error> {
    match error {
        Some(error) => Some(*error),
        None => None,
    }
}

/// The event with which the end of an operation is told, given the identity of its request as it may
/// stand there.
pub fn ended(request_id: String, error: Option<&Error>) -> (r: Event)
    ensures
        r@ == told_event(Some(request_id@), error_of(error)),
{
    match error {
        Some(error) => Event {
            event: "operation_failed",
            request_id,
            failure: Some(Failure { code: error.code.name(), message: reviewed_message(error) }),
        },
        None => Event { event: "operation_completed", request_id, failure: None },
    }
}

/// The event with which the end of an operation is told.
pub fn result(request_id: &str, error: Option<&Error>) -> (r: Event)
    ensures
        r@ == told_event(uuid_form(request_id@), error_of(error)),
{
    ended(request_identity(request_id), error)
}

/// Of an error that was not written by this program, and of a request that is known by no UUID, only
/// the code is told: two events with the same code are the same, whatever the errors and the requests
/// carry.
pub proof fn foreign_errors_are_told_by_code(
    first: Error,
    first_request: Seq<char>,
    second: Error,
    second_request: Seq<char>,
)
    requires
        !is_known(first),
        !is_known(second),
        first.code == second.code,
        uuid_form(first_request) is None,
        uuid_form(second_request) is None,
    ensures
        told_event(uuid_form(first_request), Some(first)) == told_event(
            uuid_form(second_request),
            Some(second),
        ),
        told_event(uuid_form(first_request), Some(first)) == (EventView {
            event: "operation_failed"@,
            request_id: Seq::empty(),
            failure: Some((first.code.named(), first.code.reviewed())),
        }),
{
}

/// The levels of detail: an event is written where its level is no more detailed than the one that was
/// asked for, from errors alone to everything, and none is where output is off.
pub proof fn levels_are_ordered(plan: Plan, level: LogLevel)
    ensures
        plan.format is Off ==> !plan.writes(reviewed_target(), false, level),
        !(plan.format is Off) && level is Error ==> plan.writes(reviewed_target(), false, level),
        !(plan.format is Off) ==> plan.writes(reviewed_target(), false, plan.level),
        plan.level is Error && !(level is Error) ==> !plan.writes(reviewed_target(), false, level),
        plan.level is Warn && (level is Info || level is Debug || level is Trace) ==> !plan.writes(
            reviewed_target(),
            false,
            level,
        ),
        plan.level is Info && (level is Debug || level is Trace) ==> !plan.writes(reviewed_target(), false, level),
        plan.level is Debug && level is Trace ==> !plan.writes(reviewed_target(), false, level),
        !(plan.format is Off) && plan.level is Trace ==> plan.writes(reviewed_target(), false, level),
        !(plan.format is Off) && plan.level is Info && level is Warn ==> plan.writes(reviewed_target(), false, level),
        !(plan.format is Off) && plan.level is Debug && (level is Info || level is Warn) ==> plan.writes(
            reviewed_target(),
            false,
            level,
        ),
{
}

/// An operation is told as failed exactly where there is an error, and then with the name of its code.
pub proof fn events_tell_the_outcome(request: Option<Seq<char>>, error: Option<Error>)
    ensures
        told_event(request, error).failure is Some <==> error is Some,
        error is None ==> told_event(request, error).event == "operation_completed"@,
        error matches Some(failed) ==> told_event(request, error).event == "operation_failed"@ && (told_event(
            request,
            error,
        ).failure matches Some((name, message)) && name == failed.code.named() && message == told_message(failed)),
        request matches Some(form) ==> told_event(request, error).request_id == form,
        request is None ==> told_event(request, error).request_id.len() == 0,
{
}

/// A location keeps its end, which is the part that helps: of a long one the last 128 characters, in at
/// most 256.
pub proof fn locations_keep_their_end(before: Seq<char>, end: Seq<char>)
    requires
        end.len() == 128,
    ensures
        useful_suffix(before + end) == end,
        before.len() <= 128 ==> useful_suffix(before) == before,
{
    assert((before + end).skip(before.len() as int) =~= end);
    if before.len() == 0 {
        assert(before + end =~= end);
    }
}

/// A number in hexadecimal digits reads back.
pub proof fn hexadecimals_read_back(value: nat)
    ensures
        hex_number(value).len() > 0,
        sixteens(hex_number(value)) == value,
    decreases value,
{
    if value < 16 {
        assert(hex_number(value).drop_last() =~= Seq::<char>::empty());
        reveal_with_fuel(sixteens, 2);
    } else {
        hexadecimals_read_back(value / 16);
        let text = hex_number(value);
        assert(text.drop_last() =~= hex_number(value / 16));
        assert(text.last() == hex_digit((value % 16) as int));
    }
}

/// The number that lower case hexadecimal digits spell.
pub open spec fn sixteens(text: Seq<char>) -> int
    decreases text.len(),
{
    if text.len() == 0 {
        0
    } else {
        16 * sixteens(text.drop_last()) + (if text.last() <= '9' {
            text.last() as int - '0' as int
        } else {
            text.last() as int - 'a' as int + 10
        })
    }
}

/// What stands for a character in a location: itself where it is plain, a backslash and a letter or the
/// sign where that is usual, and its number in braces otherwise.
pub proof fn location_escapes_read_back(c: char)
    ensures
        ' ' <= c <= '~' && c != '\'' && c != '"' && c != '\\' ==> escaped_char(c) == seq![c],
        c == '\'' || c == '"' || c == '\\' ==> escaped_char(c) == seq!['\\', c],
        c == '\n' ==> escaped_char(c) == seq!['\\', 'n'],
        c == '\r' ==> escaped_char(c) == seq!['\\', 'r'],
        c == '\t' ==> escaped_char(c) == seq!['\\', 't'],
        c > '~' || (c < ' ' && c != '\n' && c != '\r' && c != '\t') ==> {
            let text = escaped_char(c);
            &&& text.take(3) == seq!['\\', 'u', '{'] && text.last() == '}'
            &&& sixteens(text.subrange(3, text.len() - 1)) == c as int
        },
{
    hexadecimals_read_back(c as nat);
    let text = escaped_char(c);
    if c > '~' || (c < ' ' && c != '\n' && c != '\r' && c != '\t') {
        assert(text.take(3) =~= seq!['\\', 'u', '{']);
        assert(text.subrange(3, text.len() - 1) =~= hex_number(c as nat));
    }
}

/// Output for programs stays readable by programs: diagnostics are then in JSON or off, and a form for
/// people is refused. The level is the one that was asked for.
pub proof fn programs_get_json(options: Options, machine: bool, r: Result<Plan, Error>)
    requires
        call_ensures(Options::plan, (options, machine), r),
    ensures
        r is Err <==> machine && options.log_format is Compact,
        r matches Ok(plan) ==> plan.level == options.log_level,
        r matches Ok(plan) ==> machine ==> !(plan.format is Compact),
        r matches Ok(plan) ==> options.log_format is Auto ==> (plan.format is Json <==> machine),
        r matches Ok(plan) ==> !(options.log_format is Auto) ==> plan.format == options.log_format,
        r matches Ok(plan) ==> !(plan.format is Auto),
{
}

} // verus!
