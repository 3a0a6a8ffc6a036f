use vstd::prelude::*;
use vstd::string::{StrSliceExecFns, StringExecFns};
use crate::common::{views, Device, DeviceView, SwitchError};
use crate::exit_status::exit_status;
use crate::text::chars_of;

verus! {

/// The pieces that `s` falls into when cut at every occurrence of `d`: one
/// more piece than there are occurrences, so never none.
pub open spec fn fields(s: Seq<char>, d: char) -> Seq<Seq<char>>
    decreases s.len(),
{
    if s.len() == 0 {
        seq![Seq::empty()]
    } else {
        let before = fields(s.drop_last(), d);
        if s.last() == d {
            before.push(Seq::empty())
        } else {
            before.drop_last().push(before.last().push(s.last()))
        }
    }
}

/// The second piece of `s` cut at `d`, where there is one.
pub open spec fn second_field(s: Seq<char>, d: char) -> Option<Seq<char>> {
    if fields(s, d).len() < 2 {
        None
    } else {
        Some(fields(s, d)[1])
    }
}

/// The short name of a sink: of the identifier cut at `_` the second piece,
/// of that cut at `.` the second, of that cut at `-` the second, and of that
/// cut at `_` the first. None where a second piece is missing on the way.
pub open spec fn short_sink_name(sink: Seq<char>) -> Option<Seq<char>> {
    match second_field(sink, '_') {
        None => None,
        Some(a) => match second_field(a, '.') {
            None => None,
            Some(b) => match second_field(b, '-') {
                None => None,
                Some(c) => Some(fields(c, '_')[0]),
            },
        },
    }
}

/// The character sequences of a list of string slices.
pub open spec fn texts(pieces: Seq<&str>) -> Seq<Seq<char>> {
    Seq::new(pieces.len(), |i: int| pieces[i]@)
}

/// The pieces put together again, with `d` between each two.
pub open spec fn joined(pieces: Seq<Seq<char>>, d: char) -> Seq<char>
    decreases pieces.len(),
{
    if pieces.len() == 0 {
        Seq::empty()
    } else if pieces.len() == 1 {
        pieces[0]
    } else {
        joined(pieces.drop_last(), d).push(d) + pieces.last()
    }
}

/// Cutting at a character always leaves at least one piece.
pub proof fn lemma_fields_nonempty(s: Seq<char>, d: char)
    ensures
        fields(s, d).len() >= 1,
    decreases s.len(),
{
    if s.len() > 0 {
        lemma_fields_nonempty(s.drop_last(), d);
    }
}

/// No piece holds the character that the sequence was cut at.
pub proof fn lemma_fields_free_of_delimiter(s: Seq<char>, d: char)
    ensures
        forall|i: int, j: int|
            0 <= i < fields(s, d).len() && 0 <= j < fields(s, d)[i].len() ==> #[trigger] fields(
                s,
                d,
            )[i][j] != d,
    decreases s.len(),
{
    if s.len() > 0 {
        lemma_fields_nonempty(s.drop_last(), d);
        lemma_fields_free_of_delimiter(s.drop_last(), d);
        let before = fields(s.drop_last(), d);
        assert forall|i: int, j: int|
            0 <= i < fields(s, d).len() && 0 <= j < fields(s, d)[i].len() implies #[trigger] fields(
            s,
            d,
        )[i][j] != d by {
            if i < before.len() - 1 {
                assert(fields(s, d)[i][j] == before[i][j]);
            } else if s.last() != d && j < before.last().len() {
                assert(fields(s, d)[i][j] == before[i][j]);
            }
        }
    }
}

/// The pieces of `s`, put together again with `d` between each two, are `s`.
pub proof fn lemma_fields_joined(s: Seq<char>, d: char)
    ensures
        joined(fields(s, d), d) == s,
    decreases s.len(),
{
    if s.len() == 0 {
        assert(joined(fields(s, d), d) =~= s);
    } else {
        let front = s.drop_last();
        let before = fields(front, d);
        lemma_fields_nonempty(front, d);
        lemma_fields_joined(front, d);
        let after = fields(s, d);
        if s.last() == d {
            assert(after.drop_last() =~= before);
            assert(joined(after, d) =~= front.push(d));
        } else if before.len() == 1 {
            assert(joined(after, d) =~= before[0].push(s.last()));
        } else {
            assert(after.drop_last() =~= before.drop_last());
            assert(joined(after, d) =~= joined(before, d).push(s.last()));
        }
        assert(front.push(s.last()) =~= s);
    }
}

/// Cuts `s` at every occurrence of `d`.
pub fn split_fields<'a>(s: &'a str, d: char) -> (pieces: Vec<&'a str>)
    ensures
        texts(pieces@) == fields(s@, d),
        pieces.len() >= 1,
{
    let chars = chars_of(s);
    let n = chars.len();
    let mut done: Vec<&'a str> = Vec::new();
    let mut start: usize = 0;
    let mut i: usize = 0;
    proof {
        assert(s@.take(0) =~= Seq::<char>::empty());
        assert(s@.subrange(0, 0) =~= Seq::<char>::empty());
        assert(texts(done@).push(s@.subrange(0, 0)) =~= fields(s@.take(0), d));
    }
    while i < n
        invariant
            chars@ == s@,
            n == chars.len(),
            start <= i <= n,
            texts(done@).push(s@.subrange(start as int, i as int)) == fields(s@.take(i as int), d),
        decreases n - i,
    {
        let ghost head = s@.take(i as int);
        let ghost seen = s@.take(i + 1);
        let ghost open = s@.subrange(start as int, i as int);
        let ghost closed = texts(done@);
        proof {
            assert(seen.drop_last() =~= head);
            assert(seen.last() == chars[i as int]);
            assert(fields(head, d).last() == open);
            assert(fields(head, d).drop_last() =~= closed);
        }
        if chars[i] == d {
            let piece = s.substring_char(start, i);
            done.push(piece);
            start = i + 1;
            proof {
                assert(texts(done@) =~= closed.push(open));
                assert(s@.subrange(start as int, i + 1) =~= Seq::<char>::empty());
            }
        } else {
            proof {
                assert(s@.subrange(start as int, i + 1) =~= open.push(chars[i as int]));
            }
        }
        i += 1;
    }
    let ghost closed = texts(done@);
    let last = s.substring_char(start, n);
    done.push(last);
    proof {
        assert(s@.take(n as int) =~= s@);
        assert(texts(done@) =~= closed.push(s@.subrange(start as int, n as int)));
    }
    done
}

/// The short name of a sink, or `MalformedSinkIdentifier` where the
/// identifier lacks one of the delimiters that the name is cut at.
pub fn parse_short_sink_name(sink: &str) -> (r: Result<String, SwitchError>)
    ensures
        match short_sink_name(sink@) {
            Some(name) => r is Ok && r->Ok_0@ == name,
            None => r == Err::<String, SwitchError>(SwitchError::MalformedSinkIdentifier),
        },
{
    let a = split_fields(sink, '_');
    if a.len() < 2 {
        return Err(SwitchError::MalformedSinkIdentifier);
    }
    let b = split_fields(a[1], '.');
    if b.len() < 2 {
        return Err(SwitchError::MalformedSinkIdentifier);
    }
    let c = split_fields(b[1], '-');
    if c.len() < 2 {
        return Err(SwitchError::MalformedSinkIdentifier);
    }
    let e = split_fields(c[1], '_');
    proof {
        assert(texts(a@)[1] == a[1]@);
        assert(texts(b@)[1] == b[1]@);
        assert(texts(c@)[1] == c[1]@);
        assert(texts(e@)[0] == e[0]@);
    }
    Ok(e[0].to_owned())
}

/// The short name of a sink whose identifier has the delimiters that the
/// name is cut at.
pub fn get_short_sink_name(sink: &str) -> (name: String)
    requires
        short_sink_name(sink@) is Some,
    ensures
        Some(name@) == short_sink_name(sink@),
{
    let a = split_fields(sink, '_');
    proof {
        assert(texts(a@)[1] == a[1]@);
    }
    let b = split_fields(a[1], '.');
    proof {
        assert(texts(b@)[1] == b[1]@);
    }
    let c = split_fields(b[1], '-');
    proof {
        assert(texts(c@)[1] == c[1]@);
    }
    let e = split_fields(c[1], '_');
    proof {
        assert(texts(e@)[0] == e[0]@);
    }
    e[0].to_owned()
}

/// The characters that count as white space: those with the Unicode property
/// `White_Space`.
pub open spec fn is_white_space(c: char) -> bool {
    let u = c as u32;
    ||| 0x09 <= u <= 0x0D
    ||| u == 0x20
    ||| u == 0x85
    ||| u == 0xA0
    ||| u == 0x1680
    ||| 0x2000 <= u <= 0x200A
    ||| u == 0x2028
    ||| u == 0x2029
    ||| u == 0x202F
    ||| u == 0x205F
    ||| u == 0x3000
}

/// The first index at or after `from` that holds no white space, the length
/// of `s` where there is none.
pub open spec fn text_start(s: Seq<char>, from: int) -> int
    decreases s.len() - from,
{
    if from < 0 || from >= s.len() {
        s.len() as int
    } else if !is_white_space(s[from]) {
        from
    } else {
        text_start(s, from + 1)
    }
}

/// The end of the last run of characters before `to` that is not white
/// space: the least index from which all is white space up to `to`.
pub open spec fn text_end(s: Seq<char>, to: int) -> int
    decreases to,
{
    if to <= 0 || to > s.len() {
        0
    } else if !is_white_space(s[to - 1]) {
        to
    } else {
        text_end(s, to - 1)
    }
}

/// `s` without the white space at its two ends.
pub open spec fn trimmed(s: Seq<char>) -> Seq<char> {
    let lo = text_start(s, 0);
    if lo >= s.len() {
        Seq::empty()
    } else {
        s.subrange(lo, text_end(s, s.len() as int))
    }
}

/// What `trimmed` leaves is the stretch of `s` between two runs of white
/// space, of which the first reaches back to the start of `s` and the second
/// on to its end; where anything is left it neither starts nor ends with
/// white space.
pub proof fn lemma_trimmed(s: Seq<char>) -> (bounds: (int, int))
    ensures
        0 <= bounds.0 <= bounds.1 <= s.len(),
        trimmed(s) == s.subrange(bounds.0, bounds.1),
        forall|j: int| 0 <= j < bounds.0 ==> is_white_space(#[trigger] s[j]),
        forall|j: int| bounds.1 <= j < s.len() ==> is_white_space(#[trigger] s[j]),
        trimmed(s).len() > 0 ==> !is_white_space(trimmed(s).first()) && !is_white_space(
            trimmed(s).last(),
        ),
{
    let lo = text_start(s, 0);
    lemma_text_start(s, 0);
    lemma_text_end(s, s.len() as int);
    if lo >= s.len() {
        assert(trimmed(s) =~= s.subrange(s.len() as int, s.len() as int));
        (s.len() as int, s.len() as int)
    } else {
        let hi = text_end(s, s.len() as int);
        if hi <= lo {
            assert(is_white_space(s[lo]));
        }
        (lo, hi)
    }
}

/// `text_start` skips white space only and stops at the first character that
/// is none.
proof fn lemma_text_start(s: Seq<char>, from: int)
    requires
        0 <= from <= s.len(),
    ensures
        from <= text_start(s, from) <= s.len(),
        forall|j: int| from <= j < text_start(s, from) ==> is_white_space(#[trigger] s[j]),
        text_start(s, from) < s.len() ==> !is_white_space(s[text_start(s, from)]),
    decreases s.len() - from,
{
    if from < s.len() && is_white_space(s[from]) {
        lemma_text_start(s, from + 1);
    }
}

/// `text_end` skips white space only, backwards, and stops behind the last
/// character that is none.
proof fn lemma_text_end(s: Seq<char>, to: int)
    requires
        0 <= to <= s.len(),
    ensures
        0 <= text_end(s, to) <= to,
        forall|j: int| text_end(s, to) <= j < to ==> is_white_space(#[trigger] s[j]),
        text_end(s, to) > 0 ==> !is_white_space(s[text_end(s, to) - 1]),
    decreases to,
{
    if to > 0 && is_white_space(s[to - 1]) {
        lemma_text_end(s, to - 1);
    }
}

/// Whether `c` is white space.
pub fn white_space(c: char) -> (r: bool)
    ensures
        r == is_white_space(c),
{
    let u: u32 = c as u32;
    (0x09 <= u && u <= 0x0D) || u == 0x20 || u == 0x85 || u == 0xA0 || u == 0x1680 || (0x2000 <= u
        && u <= 0x200A) || u == 0x2028 || u == 0x2029 || u == 0x202F || u == 0x205F || u == 0x3000
}

/// Strips the white space at the two ends of `s`.
pub fn trim<'a>(s: &'a str) -> (r: &'a str)
    ensures
        r@ == trimmed(s@),
{
    let chars = chars_of(s);
    let n = chars.len();
    let mut lo: usize = 0;
    while lo < n && white_space(chars[lo])
        invariant
            chars@ == s@,
            n == chars.len(),
            lo <= n,
            text_start(s@, 0) == text_start(s@, lo as int),
        decreases n - lo,
    {
        lo += 1;
    }
    if lo >= n {
        return s.substring_char(0, 0);
    }
    let mut hi: usize = n;
    while white_space(chars[hi - 1])
        invariant
            chars@ == s@,
            n == chars.len(),
            lo < hi <= n,
            !is_white_space(s@[lo as int]),
            text_end(s@, n as int) == text_end(s@, hi as int),
        decreases hi,
    {
        hi -= 1;
    }
    s.substring_char(lo, hi)
}

/// The sink identifier that the audio server's tool printed as the default
/// sink: its output without the white space around it.
pub fn default_sink_from_output(output: &str) -> (sink: String)
    ensures
        sink@ == trimmed(output@),
{
    trim(output).to_owned()
}

/// The device that a sink identifier stands for before any override: the
/// identifier under its short name.
pub open spec fn derived_device(sink: Seq<char>) -> DeviceView {
    DeviceView { display_name: short_sink_name(sink)->0, sink_identifier: sink }
}

/// Every identifier of `sinks` has a short name.
pub open spec fn all_well_formed(sinks: Seq<Seq<char>>) -> bool {
    forall|i: int| 0 <= i < sinks.len() ==> short_sink_name(#[trigger] sinks[i]) is Some
}

/// The sink identifiers that a listing holds: its lines, once the white
/// space around the listing is stripped.
pub open spec fn listed_sinks(output: Seq<char>) -> Seq<Seq<char>> {
    fields(trimmed(output), '\n')
}

/// The live devices of a listing of sinks, one identifier to the line, in
/// the order of the lines and each under its short name. Fails with
/// `MalformedSinkIdentifier` where a line has no short name.
pub fn devices_from_listing(output: &str) -> (r: Result<Vec<Device>, SwitchError>)
    ensures
        match r {
            Ok(devices) => {
                &&& all_well_formed(listed_sinks(output@))
                &&& views(devices@) == Seq::new(
                    listed_sinks(output@).len(),
                    |i: int| derived_device(listed_sinks(output@)[i]),
                )
            },
            Err(e) => {
                &&& e == SwitchError::MalformedSinkIdentifier
                &&& !all_well_formed(listed_sinks(output@))
            },
        },
{
    let lines = split_fields(trim(output), '\n');
    let ghost sinks = listed_sinks(output@);
    let mut devices: Vec<Device> = Vec::new();
    let mut i: usize = 0;
    while i < lines.len()
        invariant
            i <= lines.len(),
            sinks == texts(lines@),
            sinks == listed_sinks(output@),
            devices.len() == i,
            forall|j: int| 0 <= j < i ==> short_sink_name(#[trigger] sinks[j]) is Some,
            forall|j: int| 0 <= j < i ==> (#[trigger] devices[j])@ == derived_device(sinks[j]),
        decreases lines.len() - i,
    {
        proof {
            assert(sinks[i as int] == lines[i as int]@);
        }
        match parse_short_sink_name(lines[i]) {
            Ok(name) => {
                devices.push(Device { device_name: name, sink_name: lines[i].to_owned() });
            },
            Err(e) => {
                proof {
                    assert(short_sink_name(sinks[i as int]) is None);
                }
                return Err(e);
            },
        }
        i += 1;
    }
    proof {
        assert(views(devices@) =~= Seq::new(sinks.len(), |i: int| derived_device(sinks[i])));
    }
    Ok(devices)
}

/// The command line that makes `device` the default sink.
pub fn set_default_sink_command(device: &Device) -> (command: String)
    ensures
        command@ == "pactl set-default-sink "@ + device@.sink_identifier,
{
    String::from_str("pactl set-default-sink ").concat(device.sink_name.as_str())
}

/// An executable that a run calls.
#[derive(Debug, Clone, Copy, PartialEq, Eq, Structural)]
pub enum Dependency {
    /// The audio server's control tool.
    Pactl,
    /// The shell that the tool is run in.
    Bash,
    /// The filter that cuts the tool's output.
    Awk,
}

impl Dependency {
    /// The name under which the executable is looked up.
    pub fn executable(&self) -> (name: &'static str)
        ensures
            name@ == match *self {
                Dependency::Pactl => "pactl"@,
                Dependency::Bash => "bash"@,
                Dependency::Awk => "awk"@,
            },
    {
        match self {
            Dependency::Pactl => "pactl",
            Dependency::Bash => "bash",
            Dependency::Awk => "awk",
        }
    }
}

/// The first of the three executables that is missing, in the order in
/// which a run needs them, given for each whether it was found.
pub open spec fn first_missing_of(pactl: bool, bash: bool, awk: bool) -> Option<Dependency> {
    if !pactl {
        Some(Dependency::Pactl)
    } else if !bash {
        Some(Dependency::Bash)
    } else if !awk {
        Some(Dependency::Awk)
    } else {
        None
    }
}

/// The first of the three executables that is missing, given for each
/// whether it was found.
pub fn first_missing(pactl: bool, bash: bool, awk: bool) -> (r: Option<Dependency>)
    ensures
        r == first_missing_of(pactl, bash, awk),
{
    if !pactl {
        Some(Dependency::Pactl)
    } else if !bash {
        Some(Dependency::Bash)
    } else if !awk {
        Some(Dependency::Awk)
    } else {
        None
    }
}

/// `which::which`: whether an executable of that name is found on the
/// search path. The answer depends on the machine, so nothing is claimed of
/// it.
#[verifier::external_body]
fn on_search_path(name: &str) -> bool {
    which::which(name).is_ok()
}

/// Looks the three executables up and names the first that is missing.
pub fn missing_dependency() -> Option<Dependency> {
    let pactl = on_search_path(Dependency::Pactl.executable());
    let bash = on_search_path(Dependency::Bash.executable());
    let awk = on_search_path(Dependency::Awk.executable());
    first_missing(pactl, bash, awk)
}

/// The exit status to end with where an executable is missing, given the
/// first missing one.
pub fn dependency_status(missing: Option<Dependency>) -> (r: Result<(), i32>)
    ensures
        r == match missing {
            None => Ok::<(), i32>(()),
            Some(_) => Err::<(), i32>(69i32),
        },
{
    match missing {
        None => Ok(()),
        Some(_) => Err(exit_status(SwitchError::Unavailable)),
    }
}

/// Checks that the executables a run calls are installed. Whatever the
/// machine holds, a failure carries the status for a missing service.
pub fn are_dependencies_installed() -> (r: Result<(), i32>)
    ensures
        r is Err ==> r == Err::<(), i32>(69i32),
{
    dependency_status(missing_dependency())
}

} // verus!
