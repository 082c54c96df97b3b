//! The crate-wide error type and its downlink.

use vstd::prelude::*;
#[allow(unused_imports)]
use vstd::string::*;

use crate::audio::AudioError;
use crate::link::{CommandLink, LinkCall, Message};
use crate::text;

verus! {

/// Crate-wide error type wrapping the errors of the underlying drivers.
///
/// The text of an error (variant name plus any fields) doubles as the
/// ground-report wire format of [`Message::Error`]: renaming a variant is a
/// protocol change, ground tooling may parse these names.
#[derive(Clone, Copy, Debug, PartialEq, Eq, Structural)]
pub enum Error {
    /// Raised if the audio channel failed to initialize.
    AudioInit,
    /// Raised when writing samples to the I2S channel fails.
    AudioTransmission,
    /// Raised when an error with creating the CSP node occurred.
    CspInit,
    /// Raised when a camera returned an empty image.
    EmptyImage,
    /// Raised when an error with the ESP32 hardware occurred.
    Peripheral,
    /// Raised if the RGB camera failed to initialize.
    RgbInit,
    /// Raised if the thermal camera failed to initialize.
    ThermalInit,
    /// Raised when an error with the UART interface occurs.
    UartAllocation,
    /// Raised when reading from the UART fails.
    UartReceive,
    /// Raised if the update session could not be started.
    UpdateBegin,
    /// Raised if a mid-transfer chunk is shorter than the announced chunk size.
    /// Fields: chunk offset, received length, expected length.
    UpdateChunkIncomplete(u32, u32, u32),
    /// Raised if the fully received image fails validation or could not be
    /// activated as the boot partition.
    UpdateCorrupt,
    /// Raised if the update ends before all bytes arrived.
    /// Fields: received bytes, expected total bytes.
    UpdateIncomplete(u32, u32),
    /// Raised when an update data package is received but no update is in progress.
    UpdateNotInProgress,
    /// Raised if no update partition could be created.
    UpdatePartition,
    /// Raised if the offset of an update package is not as expected.
    /// Fields: expected offset (bytes flashed so far), received offset.
    UpdatePackageOffset(u32, u32),
    /// Raised if writing a chunk to flash fails.
    /// Fields: chunk offset, raw platform error code.
    UpdateWrite(u32, i32),
}

/// The name of an error's variant.
pub open spec fn error_name(error: Error) -> Seq<char> {
    match error {
        Error::AudioInit => "AudioInit"@,
        Error::AudioTransmission => "AudioTransmission"@,
        Error::CspInit => "CspInit"@,
        Error::EmptyImage => "EmptyImage"@,
        Error::Peripheral => "Peripheral"@,
        Error::RgbInit => "RgbInit"@,
        Error::ThermalInit => "ThermalInit"@,
        Error::UartAllocation => "UartAllocation"@,
        Error::UartReceive => "UartReceive"@,
        Error::UpdateBegin => "UpdateBegin"@,
        Error::UpdateChunkIncomplete(_, _, _) => "UpdateChunkIncomplete"@,
        Error::UpdateCorrupt => "UpdateCorrupt"@,
        Error::UpdateIncomplete(_, _) => "UpdateIncomplete"@,
        Error::UpdateNotInProgress => "UpdateNotInProgress"@,
        Error::UpdatePartition => "UpdatePartition"@,
        Error::UpdatePackageOffset(_, _) => "UpdatePackageOffset"@,
        Error::UpdateWrite(_, _) => "UpdateWrite"@,
    }
}

/// The values an error carries, in order.
pub open spec fn error_fields(error: Error) -> Seq<int> {
    match error {
        Error::UpdateChunkIncomplete(offset, got, expected) => seq![
            offset as int,
            got as int,
            expected as int,
        ],
        Error::UpdateIncomplete(received, total) => seq![received as int, total as int],
        Error::UpdatePackageOffset(expected, got) => seq![expected as int, got as int],
        Error::UpdateWrite(offset, code) => seq![offset as int, code as int],
        _ => seq![],
    }
}

/// Decimal numbers separated by a comma and a space.
pub open spec fn number_list(fields: Seq<int>) -> Seq<char>
    decreases fields.len(),
{
    if fields.len() == 0 {
        seq![]
    } else if fields.len() == 1 {
        text::signed_decimal(fields[0])
    } else {
        number_list(fields.drop_last()) + ", "@ + text::signed_decimal(fields.last())
    }
}

/// The text of an error: the variant's name, followed by its fields in
/// parentheses where it has any.
pub open spec fn error_text(error: Error) -> Seq<char> {
    let fields = error_fields(error);
    if fields.len() == 0 {
        error_name(error)
    } else {
        error_name(error).push('(') + number_list(fields).push(')')
    }
}

/// Append `n` in decimal, ahead of it the separator of a list.
fn push_next(line: &mut String, n: u32)
    ensures
        final(line)@ == old(line)@ + ", "@ + text::signed_decimal(n as int),
{
    line.append(", ");
    text::push_decimal(line, n as u64);
}

impl Error {
    fn name(&self) -> (name: &'static str)
        ensures
            name@ == error_name(*self),
    {
        match self {
            Error::AudioInit => "AudioInit",
            Error::AudioTransmission => "AudioTransmission",
            Error::CspInit => "CspInit",
            Error::EmptyImage => "EmptyImage",
            Error::Peripheral => "Peripheral",
            Error::RgbInit => "RgbInit",
            Error::ThermalInit => "ThermalInit",
            Error::UartAllocation => "UartAllocation",
            Error::UartReceive => "UartReceive",
            Error::UpdateBegin => "UpdateBegin",
            Error::UpdateChunkIncomplete(_, _, _) => "UpdateChunkIncomplete",
            Error::UpdateCorrupt => "UpdateCorrupt",
            Error::UpdateIncomplete(_, _) => "UpdateIncomplete",
            Error::UpdateNotInProgress => "UpdateNotInProgress",
            Error::UpdatePartition => "UpdatePartition",
            Error::UpdatePackageOffset(_, _) => "UpdatePackageOffset",
            Error::UpdateWrite(_, _) => "UpdateWrite",
        }
    }

    /// The text of the error, as it is logged and downlinked.
    pub fn to_text(&self) -> (line: String)
        ensures
            line@ == error_text(*self),
    {
        let mut line = self.name().to_owned();
        proof {
            reveal_with_fuel(number_list, 4);
            let fields = error_fields(*self);
            if fields.len() == 2 {
                assert(fields.drop_last() == seq![fields[0]]);
            } else if fields.len() == 3 {
                assert(fields.drop_last() == seq![fields[0], fields[1]]);
                assert(fields.drop_last().drop_last() == seq![fields[0]]);
            }
        }
        match self {
            Error::UpdateChunkIncomplete(offset, got, expected) => {
                line.push('(');
                text::push_decimal(&mut line, *offset as u64);
                push_next(&mut line, *got);
                push_next(&mut line, *expected);
                line.push(')');
            },
            Error::UpdateIncomplete(first, second) | Error::UpdatePackageOffset(first, second) => {
                line.push('(');
                text::push_decimal(&mut line, *first as u64);
                push_next(&mut line, *second);
                line.push(')');
            },
            Error::UpdateWrite(offset, code) => {
                line.push('(');
                text::push_decimal(&mut line, *offset as u64);
                line.append(", ");
                text::push_signed_decimal(&mut line, *code);
                line.push(')');
            },
            _ => {},
        }
        assert(line@ == error_text(*self));
        line
    }
}

/// The crate-wide error that an audio error is reported as.
pub open spec fn audio_failure(error: AudioError) -> Error {
    match error {
        AudioError::Init => Error::AudioInit,
        AudioError::Transmission => Error::AudioTransmission,
    }
}

impl From<AudioError> for Error {
    fn from(e: AudioError) -> (error: Self) {
        match e {
            AudioError::Init => Error::AudioInit,
            AudioError::Transmission => Error::AudioTransmission,
        }
    }
}

impl vstd::std_specs::convert::FromSpecImpl<AudioError> for Error {
    open spec fn obeys_from_spec() -> bool {
        true
    }

    open spec fn from_spec(e: AudioError) -> Self {
        audio_failure(e)
    }
}

/// Result with the crate-wide [`Error`].
pub type Result<T> = core::result::Result<T, Error>;

/// What reporting a result adds to the calls of a link: the error, if it is
/// one.
pub open spec fn report<T>(result: Result<T>) -> Seq<LinkCall> {
    match result {
        Ok(_) => seq![],
        Err(e) => seq![LinkCall::Sent(Message::Error(e))],
    }
}

/// Extension trait for downlinking failures via the payload link.
pub trait ReportIfErr<T>: Sized {
    /// The result to report.
    spec fn reported(self) -> Result<T>;

    /// Send the error via the payload link before passing it on.
    fn report_if_err<L: CommandLink>(self, link: &mut L) -> (result: Result<T>)
        ensures
            result == self.reported(),
            final(link).calls() == old(link).calls() + report(self.reported()),
    ;
}

impl<T> ReportIfErr<T> for Result<T> {
    open spec fn reported(self) -> Result<T> {
        self
    }

    fn report_if_err<L: CommandLink>(self, link: &mut L) -> (result: Result<T>) {
        if let Err(e) = &self {
            link.send(Message::Error(*e));
        }
        assert(link.calls() == old(link).calls() + report(self));
        self
    }
}

proof fn lemma_no_comma(n: int)
    ensures
        forall|i: int|
            0 <= i < text::signed_decimal(n).len() ==> #[trigger] text::signed_decimal(n)[i] != ',',
{
    text::lemma_decimal_digits(if n < 0 { (-n) as nat } else { n as nat });
}

/// Two texts that are split at their first comma in the same way are split into
/// the same parts.
proof fn lemma_split(a: Seq<char>, b: Seq<char>, c: Seq<char>, d: Seq<char>)
    requires
        a + ", "@ + b == c + ", "@ + d,
        forall|i: int| 0 <= i < a.len() ==> #[trigger] a[i] != ',',
        forall|i: int| 0 <= i < c.len() ==> #[trigger] c[i] != ',',
    ensures
        a == c,
        b == d,
{
    reveal_strlit(", ");
    let left = a + ", "@ + b;
    let right = c + ", "@ + d;
    assert(left[a.len() as int] == ',');
    assert(right[c.len() as int] == ',');
    if a.len() < c.len() {
        assert(right[a.len() as int] == c[a.len() as int]);
    } else if c.len() < a.len() {
        assert(left[c.len() as int] == a[c.len() as int]);
    }
    assert(a == left.take(a.len() as int));
    assert(c == right.take(c.len() as int));
    assert(b == left.skip(a.len() as int + 2));
    assert(d == right.skip(c.len() as int + 2));
}

proof fn lemma_two_fields(w: int, x: int, y: int, z: int)
    requires
        number_list(seq![w, x]) == number_list(seq![y, z]),
    ensures
        w == y && x == z,
{
    reveal_with_fuel(number_list, 3);
    assert(seq![w, x].drop_last() == seq![w]);
    assert(seq![y, z].drop_last() == seq![y]);
    lemma_no_comma(w);
    lemma_no_comma(y);
    lemma_split(
        text::signed_decimal(w),
        text::signed_decimal(x),
        text::signed_decimal(y),
        text::signed_decimal(z),
    );
    text::law_signed_decimal_is_unambiguous(w, y);
    text::law_signed_decimal_is_unambiguous(x, z);
}

proof fn lemma_three_fields(u: int, v: int, w: int, x: int, y: int, z: int)
    requires
        number_list(seq![u, v, w]) == number_list(seq![x, y, z]),
    ensures
        u == x && v == y && w == z,
{
    reveal_with_fuel(number_list, 4);
    assert(seq![u, v, w].drop_last() == seq![u, v]);
    assert(seq![x, y, z].drop_last() == seq![x, y]);
    assert(seq![u, v].drop_last() == seq![u]);
    assert(seq![x, y].drop_last() == seq![x]);
    assert(seq![v, w].drop_last() == seq![v]);
    assert(seq![y, z].drop_last() == seq![y]);
    assert(number_list(seq![u, v, w]) == text::signed_decimal(u) + ", "@ + number_list(
        seq![v, w],
    ));
    assert(number_list(seq![x, y, z]) == text::signed_decimal(x) + ", "@ + number_list(
        seq![y, z],
    ));
    lemma_no_comma(u);
    lemma_no_comma(x);
    lemma_split(
        text::signed_decimal(u),
        number_list(seq![v, w]),
        text::signed_decimal(x),
        number_list(seq![y, z]),
    );
    text::law_signed_decimal_is_unambiguous(u, x);
    lemma_two_fields(v, w, y, z);
}

/// Which variant an error is.
spec fn variant(error: Error) -> int {
    match error {
        Error::AudioInit => 0,
        Error::AudioTransmission => 1,
        Error::CspInit => 2,
        Error::EmptyImage => 3,
        Error::Peripheral => 4,
        Error::RgbInit => 5,
        Error::ThermalInit => 6,
        Error::UartAllocation => 7,
        Error::UartReceive => 8,
        Error::UpdateBegin => 9,
        Error::UpdateChunkIncomplete(_, _, _) => 10,
        Error::UpdateCorrupt => 11,
        Error::UpdateIncomplete(_, _) => 12,
        Error::UpdateNotInProgress => 13,
        Error::UpdatePartition => 14,
        Error::UpdatePackageOffset(_, _) => 15,
        Error::UpdateWrite(_, _) => 16,
    }
}

/// The variant that a text belongs to, told by the characters that set the
/// names apart.
spec fn variant_of(line: Seq<char>) -> int {
    if line[0] == 'A' {
        if line[5] == 'I' {
            0
        } else {
            1
        }
    } else if line[0] == 'C' {
        2
    } else if line[0] == 'E' {
        3
    } else if line[0] == 'P' {
        4
    } else if line[0] == 'R' {
        5
    } else if line[0] == 'T' {
        6
    } else if line[1] == 'a' {
        if line[4] == 'A' {
            7
        } else {
            8
        }
    } else if line[6] == 'B' {
        9
    } else if line[6] == 'C' {
        if line[7] == 'h' {
            10
        } else {
            11
        }
    } else if line[6] == 'I' {
        12
    } else if line[6] == 'N' {
        13
    } else if line[6] == 'P' {
        if line[8] == 'r' {
            14
        } else {
            15
        }
    } else {
        16
    }
}

proof fn lemma_name_tells_the_variant(error: Error)
    ensures
        error_name(error).len() > 8 || error_name(error) == error_text(error),
        variant_of(error_name(error)) == variant(error),
{
    reveal_strlit("AudioInit");
    reveal_strlit("AudioTransmission");
    reveal_strlit("CspInit");
    reveal_strlit("EmptyImage");
    reveal_strlit("Peripheral");
    reveal_strlit("RgbInit");
    reveal_strlit("ThermalInit");
    reveal_strlit("UartAllocation");
    reveal_strlit("UartReceive");
    reveal_strlit("UpdateBegin");
    reveal_strlit("UpdateChunkIncomplete");
    reveal_strlit("UpdateCorrupt");
    reveal_strlit("UpdateIncomplete");
    reveal_strlit("UpdateNotInProgress");
    reveal_strlit("UpdatePartition");
    reveal_strlit("UpdatePackageOffset");
    reveal_strlit("UpdateWrite");
}

proof fn lemma_text_tells_the_variant(error: Error)
    ensures
        variant_of(error_text(error)) == variant(error),
{
    lemma_name_tells_the_variant(error);
    let (name, line) = (error_name(error), error_text(error));
    if name.len() > 8 {
        assert(line[0] == name[0] && line[1] == name[1] && line[4] == name[4] && line[5] == name[5]
            && line[6] == name[6] && line[7] == name[7] && line[8] == name[8]);
    }
}

/// The text of an error says which error it is, fields included: no two errors
/// are reported alike.
pub proof fn law_error_text_is_unambiguous(a: Error, b: Error)
    requires
        error_text(a) == error_text(b),
    ensures
        a == b,
{
    lemma_text_tells_the_variant(a);
    lemma_text_tells_the_variant(b);
    let (f, g) = (error_fields(a), error_fields(b));
    if f.len() > 0 {
        let start = error_name(a).len() + 1;
        let end = error_text(a).len() - 1;
        assert(error_text(a).subrange(start as int, end) == number_list(f));
        assert(error_text(b).subrange(start as int, end) == number_list(g));
        if f.len() == 2 {
            assert(f == seq![f[0], f[1]] && g == seq![g[0], g[1]]);
            lemma_two_fields(f[0], f[1], g[0], g[1]);
        } else {
            assert(f == seq![f[0], f[1], f[2]] && g == seq![g[0], g[1], g[2]]);
            lemma_three_fields(f[0], f[1], f[2], g[0], g[1], g[2]);
        }
    }
}

/// Every number of a list is written in decimal, with a comma and a space
/// between two of them.
pub proof fn law_number_list_grows(fields: Seq<int>, n: int)
    ensures
        number_list(Seq::empty()) == Seq::<char>::empty(),
        number_list(seq![n]) == text::signed_decimal(n),
        fields.len() > 0 ==> number_list(fields.push(n)) == number_list(fields) + seq![',', ' ']
            + text::signed_decimal(n),
{
    reveal_strlit(", ");
    assert(fields.push(n).drop_last() == fields);
    assert(", "@ =~= seq![',', ' ']);
}

/// The errors that carry numbers tell all of them, in the order in which they
/// carry them.
pub proof fn law_fields_are_told_in_order(a: u32, b: u32, c: u32, code: i32)
    ensures
        error_text(Error::UpdateChunkIncomplete(a, b, c)) == "UpdateChunkIncomplete"@ + seq!['(']
            + text::decimal(a as nat) + ", "@ + text::decimal(b as nat) + ", "@ + text::decimal(
            c as nat,
        ) + seq![')'],
        error_text(Error::UpdateIncomplete(a, b)) == "UpdateIncomplete"@ + seq!['(']
            + text::decimal(a as nat) + ", "@ + text::decimal(b as nat) + seq![')'],
        error_text(Error::UpdatePackageOffset(a, b)) == "UpdatePackageOffset"@ + seq!['(']
            + text::decimal(a as nat) + ", "@ + text::decimal(b as nat) + seq![')'],
        error_text(Error::UpdateWrite(a, code)) == "UpdateWrite"@ + seq!['('] + text::decimal(
            a as nat,
        ) + ", "@ + text::signed_decimal(code as int) + seq![')'],
{
    reveal_with_fuel(number_list, 4);
    let three = seq![a as int, b as int, c as int];
    assert(three.drop_last() == seq![a as int, b as int]);
    assert(three.drop_last().drop_last() == seq![a as int]);
    assert(seq![a as int, b as int].drop_last() == seq![a as int]);
    assert(seq![a as int, code as int].drop_last() == seq![a as int]);
}

/// An error is sent once, as it is; a success sends nothing.
pub proof fn law_only_errors_are_reported<T>(value: T, error: Error)
    ensures
        report(Result::<T>::Ok(value)).len() == 0,
        report(Result::<T>::Err(error)) == seq![LinkCall::Sent(Message::Error(error))],
{
}

/// An audio channel that could not be opened and one that failed later are told
/// apart.
pub proof fn law_audio_failures_are_told_apart(error: AudioError)
    ensures
        audio_failure(error) == Error::AudioInit <==> error == AudioError::Init,
        audio_failure(error) == Error::AudioTransmission <==> error == AudioError::Transmission,
{
}

/// An error that carries nothing is told by its name alone.
pub proof fn law_plain_errors_are_named()
    ensures
        error_text(Error::AudioInit) == "AudioInit"@,
        error_text(Error::AudioTransmission) == "AudioTransmission"@,
        error_text(Error::CspInit) == "CspInit"@,
        error_text(Error::EmptyImage) == "EmptyImage"@,
        error_text(Error::Peripheral) == "Peripheral"@,
        error_text(Error::RgbInit) == "RgbInit"@,
        error_text(Error::ThermalInit) == "ThermalInit"@,
        error_text(Error::UartAllocation) == "UartAllocation"@,
        error_text(Error::UartReceive) == "UartReceive"@,
        error_text(Error::UpdateBegin) == "UpdateBegin"@,
        error_text(Error::UpdateCorrupt) == "UpdateCorrupt"@,
        error_text(Error::UpdateNotInProgress) == "UpdateNotInProgress"@,
        error_text(Error::UpdatePartition) == "UpdatePartition"@,
{
}

} // verus!
