//! Credential sources expose safe status separately from secret resolution.
use vstd::prelude::*;
use vstd::utf8::{encode_utf8, valid_utf8};

use crate::config::CredentialSource;
use crate::text::{byte_len, copy_range, string_from_utf8, utf8_len};

verus! {

pub const MAX_SECRET_BYTES: usize = 65536;

/// The name under which secrets are stored.
pub fn service_name() -> (r: &'static str)
    ensures
        r@ == "mailctl"@,
{
    "mailctl"
}

/// Why a secret could not be had.
#[derive(Clone, Copy, Debug, PartialEq, Eq, Structural)]
pub enum SourceError {
    Missing,
    Locked,
    AccessDenied,
    Unavailable,
    InteractionRequired,
    InvalidSecret,
    Internal,
}

/// What is known of a source without retrieving a secret.
#[derive(Clone, Copy, Debug, PartialEq, Eq, Structural)]
pub enum Availability {
    Available,
    Missing,
    Locked,
    AccessDenied,
    Unavailable,
    InteractionRequired,
    Unknown,
}

impl SourceError {
    /// What the failure shows of its source.
    pub open spec fn shows(self) -> Availability {
        match self {
            SourceError::Missing => Availability::Missing,
            SourceError::Locked => Availability::Locked,
            SourceError::AccessDenied => Availability::AccessDenied,
            SourceError::Unavailable => Availability::Unavailable,
            SourceError::InteractionRequired => Availability::InteractionRequired,
            SourceError::InvalidSecret | SourceError::Internal => Availability::Unknown,
        }
    }

    pub fn availability(self) -> (r: Availability)
        ensures
            r == self.shows(),
    {
        match self {
            SourceError::Missing => Availability::Missing,
            SourceError::Locked => Availability::Locked,
            SourceError::AccessDenied => Availability::AccessDenied,
            SourceError::Unavailable => Availability::Unavailable,
            SourceError::InteractionRequired => Availability::InteractionRequired,
            SourceError::InvalidSecret | SourceError::Internal => Availability::Unknown,
        }
    }
}

/// `Zeroize::zeroize` of `Vec` overwrites the bytes and leaves the vector empty.
#[verifier::external_body]
fn erase(bytes: &mut Vec<u8>)
    ensures
        final(bytes)@.len() == 0,
{
    zeroize::Zeroize::zeroize(bytes);
}

/// Owned authentication material.
pub struct Secret {
    value: String,
}

/// Material that can be a secret: some text, of bounded size.
pub open spec fn is_secret(bytes: Seq<u8>) -> bool {
    1 <= bytes.len() <= MAX_SECRET_BYTES && valid_utf8(bytes)
}

impl Secret {
    pub closed spec fn text(self) -> Seq<char> {
        self.value@
    }

    /// Takes the bytes of a secret; bytes that are refused are overwritten.
    pub fn new(bytes: Vec<u8>) -> (r: Result<Self, SourceError>)
        ensures
            match r {
                Ok(secret) => is_secret(bytes@) && encode_utf8(secret.text()) == bytes@,
                Err(error) => error == SourceError::InvalidSecret && !is_secret(bytes@),
            },
    {
        if bytes.len() == 0 || bytes.len() > MAX_SECRET_BYTES {
            let mut bytes = bytes;
            erase(&mut bytes);
            return Err(SourceError::InvalidSecret);
        }
        match string_from_utf8(bytes) {
            Ok(text) => Ok(Secret { value: text }),
            Err(refused) => {
                let mut refused = refused;
                erase(&mut refused);
                Err(SourceError::InvalidSecret)
            },
        }
    }

    pub fn len(&self) -> (r: usize)
        ensures
            r == utf8_len(self.text()),
    {
        byte_len(self.value.as_str())
    }

    pub fn is_empty(&self) -> (r: bool)
        ensures
            r == (self.text().len() == 0),
    {
        self.value.as_str().is_empty()
    }

    /// Gives the text away, to memory that is overwritten after use.
    pub fn into_text(self) -> (r: String)
        ensures
            r@ == self.text(),
    {
        self.value
    }

    /// The text, for the one place that authenticates with it.
    pub fn expose(&self) -> (r: &str)
        ensures
            r@ == self.text(),
    {
        self.value.as_str()
    }
}

/// Suppress native dialogs before credential or TLS trust-store access. Builds without a native store
/// have none.
pub fn prepare_native_access() -> (r: Result<(), SourceError>)
    ensures
        r == Ok::<(), SourceError>(()),
{
    Ok(())
}

/// A credential source that a build can use, or the reason why it cannot.
#[derive(Clone, Copy, Debug, PartialEq, Eq)]
pub enum SourceRoute {
    NativeStore,
    Deferred { failure: SourceError, prerequisite: &'static str },
}

/// What becomes of a configured source: only the native store of a native build can be used.
pub open spec fn routes_to(source: CredentialSource, native: bool, r: SourceRoute) -> bool {
    match source {
        CredentialSource::Native {  } => if native {
            r is NativeStore
        } else {
            r matches SourceRoute::Deferred { failure, prerequisite } && failure
                == SourceError::Unavailable && prerequisite@
                == "Native credential resolution in this build requires macOS"@
        },
        CredentialSource::Session {  } => r matches SourceRoute::Deferred {
            failure,
            prerequisite,
        } && failure == SourceError::InteractionRequired && prerequisite@
            == "Foreground session credential resolution is unavailable in this build"@,
        CredentialSource::Systemd { .. } => r matches SourceRoute::Deferred {
            failure,
            prerequisite,
        } && failure == SourceError::Unavailable && prerequisite@
            == "Systemd credentials need provisioning for the execution identity; source resolution is unavailable in this build"@,
        CredentialSource::Command { .. } => r matches SourceRoute::Deferred {
            failure,
            prerequisite,
        } && failure == SourceError::Unavailable && prerequisite@
            == "Trusted credential commands need a provisioned helper; source execution is unavailable in this build"@,
    }
}

/// Selects a source without inspecting the store or contacting a provider.
pub fn source_for(source: &CredentialSource, native: bool) -> (r: SourceRoute)
    ensures
        routes_to(*source, native, r),
{
    match source {
        CredentialSource::Native {  } => if native {
            SourceRoute::NativeStore
        } else {
            SourceRoute::Deferred {
                failure: SourceError::Unavailable,
                prerequisite: "Native credential resolution in this build requires macOS",
            }
        },
        CredentialSource::Session {  } => SourceRoute::Deferred {
            failure: SourceError::InteractionRequired,
            prerequisite: "Foreground session credential resolution is unavailable in this build",
        },
        CredentialSource::Systemd { .. } => SourceRoute::Deferred {
            failure: SourceError::Unavailable,
            prerequisite: "Systemd credentials need provisioning for the execution identity; source resolution is unavailable in this build",
        },
        CredentialSource::Command { .. } => SourceRoute::Deferred {
            failure: SourceError::Unavailable,
            prerequisite: "Trusted credential commands need a provisioned helper; source execution is unavailable in this build",
        },
    }
}

/// The failure that a status of the native store stands for.
pub open spec fn status_failure(code: i32) -> SourceError {
    if code == -25300 {
        SourceError::Missing
    } else if code == -25308 || code == -25315 {
        SourceError::InteractionRequired
    } else if code == -61 || code == -128 || code == -25293 || code == -25244 || code == -25292 {
        SourceError::AccessDenied
    } else if code == -25291 || code == -25294 || code == -25295 {
        SourceError::Unavailable
    } else {
        SourceError::Internal
    }
}

/// The failure behind a status of the native store.
pub fn platform_code(code: i32) -> (r: SourceError)
    ensures
        r == status_failure(code),
{
    if code == -25300 {
        SourceError::Missing
    } else if code == -25308 || code == -25315 {
        // macOS uses the same code for a locked keychain and an item whose access policy needs a
        // prompt. Preserve that uncertainty.
        SourceError::InteractionRequired
    } else if code == -61 || code == -128 || code == -25293 || code == -25244 || code == -25292 {
        SourceError::AccessDenied
    } else if code == -25291 || code == -25294 || code == -25295 {
        SourceError::Unavailable
    } else {
        SourceError::Internal
    }
}

/// A failure of the native store: what it reported, and the status of the platform where one is known.
#[derive(Clone, Copy, Debug, PartialEq, Eq, Structural)]
pub enum StoreFailure {
    NoEntry,
    Platform { code: Option<i32> },
    BadData,
    Refused,
    NoStore,
    Other,
}

/// The failure behind what the native store reported.
pub fn source_error(failure: StoreFailure) -> (r: SourceError)
    ensures
        r == (match failure {
            StoreFailure::NoEntry => SourceError::Missing,
            StoreFailure::Platform { code: Some(code) } => status_failure(code),
            StoreFailure::Platform { code: None } => SourceError::Unavailable,
            StoreFailure::BadData | StoreFailure::Refused => SourceError::InvalidSecret,
            StoreFailure::NoStore => SourceError::Unavailable,
            StoreFailure::Other => SourceError::Internal,
        }),
{
    match failure {
        StoreFailure::NoEntry => SourceError::Missing,
        StoreFailure::Platform { code: Some(code) } => platform_code(code),
        StoreFailure::Platform { code: None } => SourceError::Unavailable,
        StoreFailure::BadData | StoreFailure::Refused => SourceError::InvalidSecret,
        StoreFailure::NoStore => SourceError::Unavailable,
        StoreFailure::Other => SourceError::Internal,
    }
}

/// What a helper has written so far, up to a ceiling.
#[derive(Debug)]
pub struct HelperOutput {
    pub bytes: Vec<u8>,
    pub exceeded: bool,
}

/// The most that is kept of a helper's output.
pub const HELPER_OUTPUT_BYTES: usize = 8192;

impl HelperOutput {
    pub fn new() -> (r: Self)
        ensures
            r.bytes@.len() == 0,
            !r.exceeded,
    {
        HelperOutput { bytes: Vec::new(), exceeded: false }
    }

    /// Takes more output; what goes beyond the ceiling is noted and not kept.
    pub fn take(&mut self, more: &[u8])
        requires
            old(self).bytes@.len() <= HELPER_OUTPUT_BYTES,
        ensures
            final(self).bytes@.len() <= HELPER_OUTPUT_BYTES,
            final(self).bytes@ == (old(self).bytes@ + more@).take(
                if old(self).bytes@.len() + more@.len() <= HELPER_OUTPUT_BYTES {
                    (old(self).bytes@.len() + more@.len()) as int
                } else {
                    HELPER_OUTPUT_BYTES as int
                },
            ),
            final(self).exceeded == (old(self).exceeded || old(self).bytes@.len() + more@.len()
                > HELPER_OUTPUT_BYTES),
    {
        let remaining: usize = HELPER_OUTPUT_BYTES - self.bytes.len();
        let count: usize = if more.len() < remaining {
            more.len()
        } else {
            remaining
        };
        let ghost before = self.bytes@;
        for i in 0..count
            invariant
                count <= more@.len(),
                self.bytes@ == before + more@.take(i as int),
                self.exceeded == old(self).exceeded,
        {
            self.bytes.push(more[i]);
            assert(more@.take(i + 1) =~= more@.take(i as int).push(more@[i as int]));
        }
        assert(self.bytes@ =~= (before + more@).take(before.len() + count));
        if more.len() > remaining {
            self.exceeded = true;
        }
    }
}

/// The bytes without one line ending.
pub open spec fn unterminated(output: Seq<u8>) -> Seq<u8> {
    let line = if output.len() > 0 && output.last() == 0x0a {
        output.drop_last()
    } else {
        output
    };
    if line.len() > 0 && line.last() == 0x0d {
        line.drop_last()
    } else {
        line
    }
}

/// The bytes without the blanks that they start with.
pub open spec fn unindented(line: Seq<u8>) -> Seq<u8>
    decreases line.len(),
{
    if line.len() > 0 && (line[0] == 0x20 || line[0] == 0x09) {
        unindented(line.drop_first())
    } else {
        line
    }
}

/// An absolute path between quotation marks, without control characters: the path is taken as it is.
pub open spec fn quoted_path(output: Seq<u8>) -> Option<Seq<u8>> {
    let line = unindented(unterminated(output));
    if line.len() >= 2 && line[0] == 0x22 && line.last() == 0x22 {
        let path = line.subrange(1, line.len() - 1);
        if path.len() > 0 && path[0] == 0x2f && forall|i: int|
            0 <= i < path.len() ==> (#[trigger] path[i] >= 0x20 && path[i] != 0x7f) {
            Some(path)
        } else {
            None
        }
    } else {
        None
    }
}

/// Reads the path of the default keychain from the output of the system's tool.
pub fn parse_default_keychain(output: &[u8]) -> (r: Result<Vec<u8>, SourceError>)
    ensures
        match r {
            Ok(path) => quoted_path(output@) == Some(path@),
            Err(error) => error == SourceError::Unavailable && quoted_path(output@) is None,
        },
{
    let mut last: usize = output.len();
    if last > 0 && output[last - 1] == 0x0a {
        last = last - 1;
    }
    if last > 0 && output[last - 1] == 0x0d {
        last = last - 1;
    }
    assert(output@.take(last as int) =~= unterminated(output@));
    let ghost line = output@.take(last as int);
    let mut first: usize = 0;
    assert(line.skip(0) =~= line);
    while first < last && (output[first] == 0x20 || output[first] == 0x09)
        invariant
            first <= last <= output@.len(),
            line == output@.take(last as int),
            unindented(line.skip(first as int)) == unindented(line),
        decreases last - first,
    {
        assert(line.skip(first as int).drop_first() =~= line.skip(first + 1));
        first = first + 1;
    }
    let ghost rest = line.skip(first as int);
    assert(unindented(line) == rest);
    if last - first < 2 || output[first] != 0x22 || output[last - 1] != 0x22 {
        return Err(SourceError::Unavailable);
    }
    let path = copy_range(output, first + 1, last - 1);
    assert(path@ =~= rest.subrange(1, rest.len() - 1));
    if path.len() == 0 || path[0] != 0x2f {
        return Err(SourceError::Unavailable);
    }
    for i in 0..path.len()
        invariant
            path@.len() > 0,
            path@[0] == 0x2f,
            rest == unindented(unterminated(output@)),
            rest.len() >= 2,
            rest[0] == 0x22,
            rest.last() == 0x22,
            path@ == rest.subrange(1, rest.len() - 1),
            forall|j: int| 0 <= j < i ==> (#[trigger] path@[j] >= 0x20 && path@[j] != 0x7f),
    {
        if path[i] < 0x20 || path[i] == 0x7f {
            assert(!(path@[i as int] >= 0x20 && path@[i as int] != 0x7f));
            return Err(SourceError::Unavailable);
        }
    }
    Ok(path)
}

/// Only a native store in a build that has one is asked for a secret; every other source is put off, and
/// only a session waits for somebody to act.
pub proof fn sources_are_put_off(source: CredentialSource, native: bool, route: SourceRoute)
    requires
        routes_to(source, native, route),
    ensures
        route is NativeStore <==> source is Native && native,
        route matches SourceRoute::Deferred { failure, .. } ==> (failure == SourceError::InteractionRequired
            <==> source is Session) && (failure == SourceError::Unavailable <==> !(source is Session)),
{
}

/// What a failed source shows is its failure, but for failures that nobody outside should see.
pub proof fn failures_are_shown(a: SourceError, b: SourceError)
    ensures
        a.shows() is Missing <==> a is Missing,
        a.shows() is Locked <==> a is Locked,
        a.shows() is AccessDenied <==> a is AccessDenied,
        a.shows() is Unavailable <==> a is Unavailable,
        a.shows() is InteractionRequired <==> a is InteractionRequired,
        a.shows() is Unknown <==> a is InvalidSecret || a is Internal,
        a.shows() == b.shows() && !(a.shows() is Unknown) ==> a == b,
{
}

/// The statuses of the store: an item that is not there, a person who has to act, access that is denied,
/// and a store that is not there. Every other status is an internal failure.
pub proof fn statuses_name_failures(code: i32)
    ensures
        status_failure(code) == SourceError::Missing <==> code == -25300,
        status_failure(code) == SourceError::InteractionRequired <==> (code == -25308 || code == -25315),
        status_failure(code) == SourceError::AccessDenied <==> (code == -61 || code == -128 || code == -25244
            || code == -25292 || code == -25293),
        status_failure(code) == SourceError::Unavailable <==> (code == -25291 || code == -25294 || code == -25295),
        status_failure(code) == SourceError::Internal || status_failure(code) == SourceError::Missing
            || status_failure(code) == SourceError::InteractionRequired || status_failure(code)
            == SourceError::AccessDenied || status_failure(code) == SourceError::Unavailable,
        code >= 0 ==> status_failure(code) == SourceError::Internal,
{
}

/// A quoted path is read out of its quotation marks, whatever blanks stand before it and however its line
/// ends; it has to begin at the root and hold no control byte.
pub proof fn quoted_paths_read_back(blanks: Seq<u8>, path: Seq<u8>, end: Seq<u8>)
    requires
        forall|i: int| 0 <= i < blanks.len() ==> #[trigger] blanks[i] == 0x20 || blanks[i] == 0x09,
        end.len() == 0 || end == seq![0x0au8] || end == seq![0x0du8, 0x0au8],
    ensures
        quoted_path(blanks + seq![0x22u8] + path + seq![0x22u8] + end) == (if path.len() > 0 && path[0] == 0x2f
            && forall|i: int| 0 <= i < path.len() ==> #[trigger] path[i] >= 0x20 && path[i] != 0x7f {
            Some(path)
        } else {
            None
        }),
{
    let quoted = seq![0x22u8] + path + seq![0x22u8];
    let output = blanks + seq![0x22u8] + path + seq![0x22u8] + end;
    let line = blanks + quoted;
    assert(output =~= line + end);
    if end == seq![0x0au8] {
        assert(output.drop_last() =~= line);
    } else if end == seq![0x0du8, 0x0au8] {
        assert(output.drop_last() =~= line + seq![0x0du8]);
        assert((line + seq![0x0du8]).drop_last() =~= line);
    } else {
        assert(output =~= line);
    }
    assert(unterminated(output) == line);
    blanks_come_off(blanks, quoted);
    assert(quoted.subrange(1, quoted.len() - 1) =~= path);
}

proof fn blanks_come_off(blanks: Seq<u8>, rest: Seq<u8>)
    requires
        forall|i: int| 0 <= i < blanks.len() ==> #[trigger] blanks[i] == 0x20 || blanks[i] == 0x09,
        rest.len() > 0,
        rest[0] == 0x22,
    ensures
        unindented(blanks + rest) == rest,
    decreases blanks.len(),
{
    if blanks.len() > 0 {
        blanks_come_off(blanks.drop_first(), rest);
        assert((blanks + rest)[0] == blanks[0]);
        assert((blanks + rest).drop_first() =~= blanks.drop_first() + rest);
    } else {
        assert(blanks + rest =~= rest);
    }
}

/// A secret is text of one to 65536 bytes.
pub proof fn secrets_are_bounded_text(bytes: Seq<u8>)
    ensures
        is_secret(bytes) <==> bytes.len() != 0 && bytes.len() <= 64 * 1024 && valid_utf8(bytes),
{
}

} // verus!
