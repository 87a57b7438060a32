//! The answers that the WebRTC engine can be handed: what their lines name must not clash.

use vstd::prelude::*;
use vstd::slice::slice_subrange;

use crate::text;

verus! {

/// What a line of an answer names.
#[derive(Debug, Clone, PartialEq, Eq)]
pub enum Mark {
    /// A media line, by its identifier.
    Mid(Vec<char>),
    /// A format that the engine may settle on, by its number.
    Format(u8),
    /// A format that repeats another one, by its number.
    Params(u8),
    /// What cannot be: a format out of range, or one that repeats several.
    Bad,
    /// Nothing that could clash.
    Other,
}

/// What a line of an answer names, with a sequence in place of the vector.
pub enum LineMark {
    Mid(Seq<char>),
    Format(u8),
    Params(u8),
    Bad,
    Other,
}

impl View for Mark {
    type V = LineMark;

    open spec fn view(&self) -> LineMark {
        match *self {
            Mark::Mid(key) => LineMark::Mid(key@),
            Mark::Format(n) => LineMark::Format(n),
            Mark::Params(n) => LineMark::Params(n),
            Mark::Bad => LineMark::Bad,
            Mark::Other => LineMark::Other,
        }
    }
}

/// A letter or digit of ASCII.
pub open spec fn is_plain(c: char) -> bool {
    '0' <= c <= '9' || 'A' <= c <= 'Z' || 'a' <= c <= 'z'
}

/// A line without the carriage return that may end it.
pub open spec fn line_body(line: Seq<char>) -> Seq<char> {
    if line.len() > 0 && line.last() == '\r' { line.drop_last() } else { line }
}

/// What is kept of a media line's identifier: its first sixteen characters, with underscores
/// in place of those that are neither letters nor digits.
pub open spec fn mid_key(value: Seq<char>) -> Seq<char> {
    Seq::new(
        if value.len() < 16 {
            value.len()
        } else {
            16
        },
        |i: int|
            if is_plain(value[i]) {
                value[i]
            } else {
                '_'
            },
    )
}

/// The decimal number whose digits go on to the next space; `started` says whether some of
/// them stand before, and `value` what those say.
pub open spec fn number_to_space(s: Seq<char>, started: bool, value: int) -> Option<int>
    decreases s.len(),
{
    if s.len() == 0 {
        None
    } else if s[0] == ' ' {
        if started { Some(value) } else { None }
    } else if '0' <= s[0] <= '9' {
        number_to_space(s.drop_first(), true, 10 * value + (s[0] as int - '0' as int))
    } else {
        None
    }
}

/// The number of a byte that starts a text before a space, with a plus sign or without.
pub open spec fn payload_number(s: Seq<char>) -> Option<u8> {
    let unsigned = if s.len() > 0 && s[0] == '+' { s.drop_first() } else { s };
    match number_to_space(unsigned, false, 0) {
        Some(n) => if n <= 255 { Some(n as u8) } else { None },
        None => None,
    }
}

/// What stands behind the first space.
pub open spec fn behind_space(s: Seq<char>) -> Seq<char>
    decreases s.len(),
{
    if s.len() == 0 {
        s
    } else if s[0] == ' ' {
        s.drop_first()
    } else {
        behind_space(s.drop_first())
    }
}

/// The number of a character, where that of a large letter of ASCII is that of the small one.
pub open spec fn small(c: char) -> int {
    if 'A' <= c <= 'Z' { c as int + 32 } else { c as int }
}

/// A text starts with another one, be its letters large or small.
pub open spec fn starts_like(s: Seq<char>, prefix: Seq<char>) -> bool {
    prefix.len() <= s.len() && forall|i: int|
        0 <= i < prefix.len() ==> small(s[i]) == small(#[trigger] prefix[i])
}

/// A format of a codec that the engine knows, or one that repeats another one.
pub open spec fn is_known(s: Seq<char>) -> bool {
    ||| starts_like(s, "opus/"@)
    ||| starts_like(s, "vp8/"@)
    ||| starts_like(s, "vp9/"@)
    ||| starts_like(s, "h264/"@)
    ||| starts_like(s, "rtx/"@)
}

/// The format that another one repeats is named from here on.
pub open spec fn names_repeated(s: Seq<char>, i: int) -> bool {
    0 <= i && i + 4 <= s.len() && s[i] == 'a' && s[i + 1] == 'p' && s[i + 2] == 't' && s[i + 3]
        == '='
}

/// The format that another one repeats is named somewhere.
pub open spec fn repeats(s: Seq<char>) -> bool {
    exists|i: int| names_repeated(s, i)
}

/// There are parameters behind the number, and they end on their line: more would follow a
/// semicolon.
pub open spec fn ends_on_line(s: Seq<char>) -> bool {
    let shown = text::trimmed(s);
    shown.contains(' ') && shown.last() != ';'
}

/// At most one format that is repeated is named.
pub open spec fn repeats_one(s: Seq<char>) -> bool {
    forall|i: int, j: int|
        #[trigger] names_repeated(s, i) && #[trigger] names_repeated(s, j) ==> i == j
}

/// A line gives the parameters of a format.
pub open spec fn has_params(body: Seq<char>) -> bool {
    "a=fmtp:"@.is_prefix_of(body) && payload_number(body.skip(7)) is Some
}

/// What a line names.
pub open spec fn line_mark(line: Seq<char>) -> LineMark {
    let body = line_body(line);
    if "a=mid:"@.is_prefix_of(body) {
        LineMark::Mid(mid_key(body.skip(6)))
    } else if "a=rtpmap:"@.is_prefix_of(body) {
        match payload_number(body.skip(9)) {
            Some(n) => if !is_known(behind_space(body.skip(9))) {
                LineMark::Other
            } else if n < 128 {
                LineMark::Format(n)
            } else {
                LineMark::Bad
            },
            None => LineMark::Other,
        }
    } else if has_params(body) {
        if !repeats_one(body) {
            LineMark::Bad
        } else if repeats(body) {
            LineMark::Params(payload_number(body.skip(7))->0)
        } else {
            LineMark::Other
        }
    } else {
        LineMark::Other
    }
}

/// The parameters of a line may go on behind it.
pub open spec fn is_open(line: Seq<char>) -> bool {
    has_params(line_body(line)) && !ends_on_line(line_body(line).skip(7))
}

/// A line names a format that is repeated, but not as a parameter of its own.
pub open spec fn is_stray(line: Seq<char>) -> bool {
    repeats(line_body(line)) && !has_params(line_body(line))
}

/// The lines from the first on that starts the description of a media line.
pub open spec fn media_part(lines: Seq<Seq<char>>) -> Seq<Seq<char>>
    decreases lines.len(),
{
    if lines.len() == 0 {
        lines
    } else {
        let before = media_part(lines.drop_last());
        if before.len() > 0 || "m="@.is_prefix_of(lines.last()) {
            before.push(lines.last())
        } else {
            before
        }
    }
}

/// One of the lines is open.
pub open spec fn any_open(lines: Seq<Seq<char>>) -> bool {
    exists|i: int| 0 <= i < lines.len() && is_open(#[trigger] lines[i])
}

/// One of the lines is stray.
pub open spec fn any_stray(lines: Seq<Seq<char>>) -> bool {
    exists|i: int| 0 <= i < lines.len() && is_stray(#[trigger] lines[i])
}

/// What the lines of a text name.
pub open spec fn line_marks(lines: Seq<Seq<char>>) -> Seq<LineMark> {
    lines.map_values(|line: Seq<char>| line_mark(line))
}

/// None of these is bad, and nothing is named twice.
pub open spec fn marks_differ(marks: Seq<LineMark>) -> bool {
    &&& forall|i: int| 0 <= i < marks.len() ==> #[trigger] marks[i] != LineMark::Bad
    &&& forall|i: int, j: int|
        0 <= i < j < marks.len() && #[trigger] marks[i] == #[trigger] marks[j] ==> marks[i]
            == LineMark::Other
}

/// An answer that the engine can be handed. From the first media line on, each media line has
/// an identifier of its own, each format that the engine may settle on a number of its own,
/// and each format that repeats others repeats one, whatever parameters go on behind their
/// line.
pub open spec fn acceptable(answer: Seq<char>) -> bool {
    let lines = media_part(text::lines(answer));
    marks_differ(line_marks(lines)) && !(any_open(lines) && any_stray(lines))
}

/// The views of marks.
spec fn views(marks: Seq<Mark>) -> Seq<LineMark> {
    marks.map_values(|m: Mark| m@)
}

proof fn lemma_marks_push(marks: Seq<LineMark>, m: LineMark)
    ensures
        marks_differ(marks.push(m)) == (marks_differ(marks) && m != LineMark::Bad && (m
            == LineMark::Other || !marks.contains(m))),
{
    let all = marks.push(m);
    let n = marks.len() as int;
    assert(all[n] == m);
    assert forall|i: int| 0 <= i < n implies #[trigger] marks[i] == all[i] by {}
    if marks_differ(all) {
        assert forall|i: int| 0 <= i < n implies #[trigger] marks[i] != LineMark::Bad by {
            assert(all[i] != LineMark::Bad);
        }
        assert forall|i: int, j: int|
            0 <= i < j < n && #[trigger] marks[i] == #[trigger] marks[j] implies marks[i]
            == LineMark::Other by {
            assert(all[i] == all[j]);
        }
        if marks.contains(m) {
            let i = choose|i: int| 0 <= i < n && marks[i] == m;
            assert(all[i] == all[n]);
        }
    }
}

fn plain(c: char) -> (r: bool)
    ensures
        r == is_plain(c),
{
    '0' <= c && c <= '9' || 'A' <= c && c <= 'Z' || 'a' <= c && c <= 'z'
}

fn key_of(value: &[char]) -> (key: Vec<char>)
    ensures
        key@ == mid_key(value@),
{
    let mut key: Vec<char> = Vec::new();
    let mut i: usize = 0;
    while i < value.len() && i < 16
        invariant
            i <= value@.len(),
            i <= 16,
            key@ =~= mid_key(value@).take(i as int),
        decreases value.len() - i,
    {
        if plain(value[i]) {
            key.push(value[i]);
        } else {
            key.push('_');
        }
        i += 1;
        assert(key@ =~= mid_key(value@).take(i as int));
    }
    assert(mid_key(value@).take(i as int) =~= mid_key(value@));
    key
}

fn number_of(s: &[char]) -> (r: Option<u8>)
    ensures
        r == payload_number(s@),
{
    let mut i: usize = if s.len() > 0 && s[0] == '+' {
        1
    } else {
        0
    };
    let ghost unsigned = s@.skip(i as int);
    let ghost mut exact: int = 0;
    let mut value: u32 = 0;
    let mut started: bool = false;
    assert(i == 0 ==> unsigned =~= s@);
    assert(i == 1 ==> unsigned =~= s@.drop_first());
    while i < s.len()
        invariant
            i <= s@.len(),
            unsigned == (if s@.len() > 0 && s@[0] == '+' {
                s@.drop_first()
            } else {
                s@
            }),
            number_to_space(unsigned, false, 0) == number_to_space(
                s@.skip(i as int),
                started,
                exact,
            ),
            value == (if 0 <= exact <= 255 {
                exact
            } else {
                256
            }),
            exact >= 0,
        decreases s.len() - i,
    {
        let c = s[i];
        assert(s@.skip(i as int)[0] == c);
        assert(s@.skip(i as int).drop_first() =~= s@.skip(i + 1));
        if c == ' ' {
            return if started && value < 256 {
                Some(value as u8)
            } else {
                None
            };
        }
        if !('0' <= c && c <= '9') {
            return None;
        }
        let d: u32 = c as u32 - '0' as u32;
        proof {
            exact = 10 * exact + d;
        }
        let more: u32 = 10 * value + d;
        value = if more < 256 {
            more
        } else {
            256
        };
        started = true;
        i += 1;
    }
    None
}

fn skip_to_space(s: &[char]) -> (r: &[char])
    ensures
        r@ == behind_space(s@),
{
    let mut i: usize = 0;
    assert(s@.skip(0) =~= s@);
    while i < s.len()
        invariant
            i <= s@.len(),
            behind_space(s@) == behind_space(s@.skip(i as int)),
        decreases s.len() - i,
    {
        assert(s@.skip(i as int).drop_first() =~= s@.skip(i + 1));
        if s[i] == ' ' {
            return slice_subrange(s, i + 1, s.len());
        }
        i += 1;
    }
    let none = slice_subrange(s, s.len(), s.len());
    assert(none@ =~= s@.skip(i as int));
    none
}

fn as_small(c: char) -> (r: u32)
    ensures
        r == small(c),
{
    if 'A' <= c && c <= 'Z' {
        c as u32 + 32
    } else {
        c as u32
    }
}

fn is_like(s: &[char], prefix: &str) -> (r: bool)
    ensures
        r == starts_like(s@, prefix@),
{
    let p = text::chars_of(prefix);
    if p.len() > s.len() {
        return false;
    }
    let mut i: usize = 0;
    while i < p.len()
        invariant
            i <= p@.len() <= s@.len(),
            p@ == prefix@,
            forall|j: int| 0 <= j < i ==> small(s@[j]) == small(#[trigger] prefix@[j]),
        decreases p.len() - i,
    {
        if as_small(s[i]) != as_small(p[i]) {
            assert(small(s@[i as int]) != small(prefix@[i as int]));
            return false;
        }
        i += 1;
    }
    true
}

fn knows(s: &[char]) -> (r: bool)
    ensures
        r == is_known(s@),
{
    is_like(s, "opus/") || is_like(s, "vp8/") || is_like(s, "vp9/") || is_like(s, "h264/")
        || is_like(s, "rtx/")
}

fn count_repeated(s: &[char]) -> (r: u8)
    ensures
        r == 0 <==> !repeats(s@),
        r <= 1 <==> repeats_one(s@),
{
    let mut found: bool = false;
    let ghost mut at: int = 0;
    let mut i: usize = 0;
    while i < s.len()
        invariant
            i <= s@.len(),
            found ==> 0 <= at < i && names_repeated(s@, at),
            forall|j: int| 0 <= j < i && #[trigger] names_repeated(s@, j) ==> found && j == at,
        decreases s.len() - i,
    {
        if s.len() - i >= 4 && s[i] == 'a' && s[i + 1] == 'p' && s[i + 2] == 't' && s[i + 3]
            == '=' {
            assert(names_repeated(s@, i as int));
            if found {
                return 2;
            }
            found = true;
            proof {
                at = i as int;
            }
        }
        i += 1;
    }
    if found {
        1
    } else {
        0
    }
}

fn is_on_line(s: &[char]) -> (r: bool)
    ensures
        r == ends_on_line(s@),
{
    let shown = text::trim(s);
    let mut i: usize = 0;
    while i < shown.len()
        invariant
            i <= shown@.len(),
            shown@ == text::trimmed(s@),
            forall|j: int| 0 <= j < i ==> shown@[j] != ' ',
        decreases shown.len() - i,
    {
        if shown[i] == ' ' {
            assert(shown@.contains(' '));
            return shown[shown.len() - 1] != ';';
        }
        i += 1;
    }
    false
}

/// What there is to know of a line.
struct Line {
    mark: Mark,
    open: bool,
    stray: bool,
}

fn read_line(line: &[char]) -> (r: Line)
    ensures
        r.mark@ == line_mark(line@),
        r.open == is_open(line@),
        r.stray == is_stray(line@),
{
    let n: usize = if line.len() > 0 && line[line.len() - 1] == '\r' {
        line.len() - 1
    } else {
        line.len()
    };
    let body = slice_subrange(line, 0, n);
    assert(body@ =~= line_body(line@));
    proof {
        reveal_strlit("a=mid:");
        reveal_strlit("a=rtpmap:");
        reveal_strlit("a=fmtp:");
    }
    let repeated: u8 = count_repeated(body);
    if text::starts_with(body, "a=fmtp:") {
        let value = slice_subrange(body, 7, n);
        assert(value@ =~= body@.skip(7));
        assert("a=fmtp:"@[2] == body@.take(7)[2]);
        assert("a=mid:"@[2] != body@.take(6)[2]);
        assert(n >= 9 ==> "a=rtpmap:"@[2] != body@.take(9)[2]);
        if let Some(number) = number_of(value) {
            let mark = if repeated > 1 {
                Mark::Bad
            } else if repeated == 1 {
                Mark::Params(number)
            } else {
                Mark::Other
            };
            return Line { mark, open: !is_on_line(value), stray: false };
        }
        return Line { mark: Mark::Other, open: false, stray: repeated > 0 };
    }
    let mark = if text::starts_with(body, "a=mid:") {
        let value = slice_subrange(body, 6, n);
        assert(value@ =~= body@.skip(6));
        Mark::Mid(key_of(value))
    } else if text::starts_with(body, "a=rtpmap:") {
        let value = slice_subrange(body, 9, n);
        assert(value@ =~= body@.skip(9));
        match number_of(value) {
            Some(number) => if !knows(skip_to_space(value)) {
                Mark::Other
            } else if number < 128 {
                Mark::Format(number)
            } else {
                Mark::Bad
            },
            None => Mark::Other,
        }
    } else {
        Mark::Other
    };
    Line { mark, open: false, stray: repeated > 0 }
}

fn same_key(a: &Vec<char>, b: &Vec<char>) -> (r: bool)
    ensures
        r == (a@ == b@),
{
    if a.len() != b.len() {
        return false;
    }
    let mut i: usize = 0;
    while i < a.len()
        invariant
            i <= a@.len() == b@.len(),
            forall|j: int| 0 <= j < i ==> a@[j] == b@[j],
        decreases a.len() - i,
    {
        if a[i] != b[i] {
            return false;
        }
        i += 1;
    }
    assert(a@ =~= b@);
    true
}

fn same_mark(a: &Mark, b: &Mark) -> (r: bool)
    ensures
        r == (a@ == b@),
{
    match (a, b) {
        (Mark::Mid(x), Mark::Mid(y)) => same_key(x, y),
        (Mark::Format(x), Mark::Format(y)) => *x == *y,
        (Mark::Params(x), Mark::Params(y)) => *x == *y,
        (Mark::Bad, Mark::Bad) => true,
        (Mark::Other, Mark::Other) => true,
        _ => false,
    }
}

fn is_new(marks: &Vec<Mark>, m: &Mark) -> (r: bool)
    ensures
        r == (m@ != LineMark::Bad && (m@ == LineMark::Other || !views(marks@).contains(m@))),
{
    match m {
        Mark::Bad => {
            return false;
        },
        Mark::Other => {
            return true;
        },
        _ => {},
    }
    let mut i: usize = 0;
    while i < marks.len()
        invariant
            i <= marks@.len(),
            m@ != LineMark::Bad && m@ != LineMark::Other,
            forall|j: int| 0 <= j < i ==> views(marks@)[j] != m@,
        decreases marks.len() - i,
    {
        if same_mark(&marks[i], m) {
            assert(views(marks@)[i as int] == m@);
            return false;
        }
        i += 1;
    }
    true
}

/// What is known of the lines that were read.
struct Scan {
    /// A media line is among them.
    started: bool,
    marks: Vec<Mark>,
    /// None of the marks is bad, and they differ.
    differ: bool,
    open: bool,
    stray: bool,
}

impl Scan {
    spec fn knows(self, read: Seq<Seq<char>>) -> bool {
        let lines = media_part(read);
        &&& self.started == (lines.len() > 0)
        &&& self.differ ==> views(self.marks@) == line_marks(lines)
        &&& self.differ == marks_differ(line_marks(lines))
        &&& self.open == any_open(lines)
        &&& self.stray == any_stray(lines)
    }

    fn note(&mut self, line: &[char], Ghost(read): Ghost<Seq<Seq<char>>>)
        requires
            old(self).knows(read),
        ensures
            final(self).knows(read.push(line@)),
    {
        assert(read.push(line@).drop_last() =~= read);
        if !self.started && !text::starts_with(line, "m=") {
            return;
        }
        self.started = true;
        let found = read_line(line);
        let ghost m = found.mark@;
        let ghost read = media_part(read);
        let ghost all = read.push(line@);
        proof {
            assert(line_marks(all) =~= line_marks(read).push(m));
            lemma_marks_push(line_marks(read), m);
            assert(all[read.len() as int] == line@);
            assert forall|i: int| 0 <= i < read.len() implies #[trigger] all[i] == read[i] by {}
            if any_open(read) {
                let i = choose|i: int| 0 <= i < read.len() && is_open(#[trigger] read[i]);
                assert(is_open(all[i]));
            }
            if any_stray(read) {
                let i = choose|i: int| 0 <= i < read.len() && is_stray(#[trigger] read[i]);
                assert(is_stray(all[i]));
            }
        }
        self.open = self.open || found.open;
        self.stray = self.stray || found.stray;
        if self.differ && is_new(&self.marks, &found.mark) {
            let ghost before = self.marks@;
            self.marks.push(found.mark);
            assert(views(self.marks@) =~= views(before).push(m));
        } else {
            self.differ = false;
        }
    }
}

/// Tests whether the engine can be handed an answer.
pub fn can_accept(answer: &str) -> (r: bool)
    ensures
        r == acceptable(answer@),
{
    let all = text::chars_of(answer);
    let mut scan = Scan {
        started: false,
        marks: Vec::new(),
        differ: true,
        open: false,
        stray: false,
    };
    let ghost mut read: Seq<Seq<char>> = Seq::empty();
    let mut start: usize = 0;
    let mut i: usize = 0;
    assert(all@.take(0) =~= Seq::<char>::empty());
    assert(text::lines(all@.take(0)) =~= read.push(all@.subrange(0, 0)));
    assert(views(scan.marks@) =~= line_marks(read));
    while i < all.len()
        invariant
            start <= i <= all@.len(),
            text::lines(all@.take(i as int)) == read.push(all@.subrange(start as int, i as int)),
            scan.knows(read),
        decreases all.len() - i,
    {
        let ghost line = all@.subrange(start as int, i as int);
        let ghost after = all@.take(i + 1);
        assert(after.drop_last() =~= all@.take(i as int));
        assert(after.last() == all@[i as int]);
        assert(read.push(line).drop_last() =~= read);
        if all[i] == '\n' {
            scan.note(slice_subrange(all.as_slice(), start, i), Ghost(read));
            proof {
                read = read.push(line);
            }
            start = i + 1;
            assert(all@.subrange(start as int, i + 1) =~= Seq::<char>::empty());
        } else {
            assert(all@.subrange(start as int, i + 1) =~= line.push(all@[i as int]));
        }
        i += 1;
    }
    assert(all@.take(all@.len() as int) =~= all@);
    scan.note(slice_subrange(all.as_slice(), start, all.len()), Ghost(read));
    scan.differ && !(scan.open && scan.stray)
}

/// The description of the media starts at the first line that starts with `m=`: what stands
/// ahead of it does not count, and everything behind does.
pub proof fn law_media_part_from_first_line(lines: Seq<Seq<char>>) -> (n: int)
    ensures
        0 <= n <= lines.len(),
        media_part(lines) == lines.skip(n),
        forall|k: int| 0 <= k < n ==> !"m="@.is_prefix_of(#[trigger] lines[k]),
        n < lines.len() ==> "m="@.is_prefix_of(lines[n]),
    decreases lines.len(),
{
    if lines.len() == 0 {
        assert(lines.skip(0) =~= lines);
        0
    } else {
        let before = lines.drop_last();
        let last = lines.len() - 1;
        let n = law_media_part_from_first_line(before);
        assert forall|k: int| 0 <= k < last implies #[trigger] lines[k] == before[k] by {}
        if n < before.len() {
            assert(lines.skip(n) =~= before.skip(n).push(lines.last()));
            assert("m="@.is_prefix_of(before[n]));
            n
        } else if "m="@.is_prefix_of(lines.last()) {
            assert(before.skip(n) =~= Seq::<Seq<char>>::empty());
            assert(lines.skip(last) =~= seq![lines.last()]);
            assert(media_part(lines) =~= lines.skip(last));
            last
        } else {
            assert(before.skip(n) =~= Seq::<Seq<char>>::empty());
            assert(media_part(lines) =~= lines.skip(lines.len() as int));
            lines.len() as int
        }
    }
}

/// An answer can be handed to the engine exactly where, from its first media line on, no line
/// is bad, no two lines name the same, and no line names what another one would have to go on
/// for; however many lines there are.
pub proof fn law_answers_without_clash_fit(answer: Seq<char>)
    ensures
        ({
            let lines = media_part(text::lines(answer));
            acceptable(answer) <==> {
                &&& forall|i: int| 0 <= i < lines.len() ==> !(line_mark(#[trigger] lines[i]) is Bad)
                &&& forall|i: int, j: int|
                    0 <= i < j < lines.len() && line_mark(#[trigger] lines[i]) == line_mark(
                        #[trigger] lines[j],
                    ) ==> line_mark(lines[i]) is Other
                &&& (forall|i: int| 0 <= i < lines.len() ==> !is_open(#[trigger] lines[i])) || (
                forall|i: int| 0 <= i < lines.len() ==> !is_stray(#[trigger] lines[i]))
            }
        }),
{
    let lines = media_part(text::lines(answer));
    let marks = line_marks(lines);
    assert forall|i: int| 0 <= i < lines.len() implies #[trigger] marks[i] == line_mark(
        lines[i],
    ) by {}
    if acceptable(answer) {
        assert forall|i: int| 0 <= i < lines.len() implies !(line_mark(
            #[trigger] lines[i],
        ) is Bad) by {
            assert(marks[i] != LineMark::Bad);
        }
        assert forall|i: int, j: int|
            0 <= i < j < lines.len() && line_mark(#[trigger] lines[i]) == line_mark(
                #[trigger] lines[j],
            ) implies line_mark(lines[i]) is Other by {
            assert(marks[i] == marks[j]);
        }
    } else if !marks_differ(marks) {
        if forall|i: int| 0 <= i < lines.len() ==> !(line_mark(#[trigger] lines[i]) is Bad) {
            let (i, j) = choose|i: int, j: int|
                0 <= i < j < marks.len() && #[trigger] marks[i] == #[trigger] marks[j] && marks[i]
                    != LineMark::Other;
            assert(line_mark(lines[i]) == line_mark(lines[j]));
        }
    }
}

/// A carriage return at the end of a line is not part of it, and no other is left out.
pub proof fn law_one_return_left_out(body: Seq<char>)
    ensures
        line_body(body.push('\r')) == body,
        body.len() == 0 || body.last() != '\r' ==> line_body(body) == body,
{
    assert(body.push('\r').drop_last() =~= body);
}

/// What a line names: an identifier behind `a=mid:`; a format of a codec that the engine knows,
/// with a number below 128, behind `a=rtpmap:`; parameters that name one other format, behind
/// `a=fmtp:`. It is bad where such a format has a larger number, or where its parameters name
/// several others.
pub proof fn law_line_names(line: Seq<char>, key: Seq<char>, n: u8)
    ensures
        ({
            let body = line_body(line);
            let mid = "a=mid:"@.is_prefix_of(body);
            let map = "a=rtpmap:"@.is_prefix_of(body);
            let params = "a=fmtp:"@.is_prefix_of(body);
            let known = map && is_known(behind_space(body.skip(9)));
            let number = payload_number(body.skip(9));
            &&& line_mark(line) == LineMark::Mid(key) <==> mid && key == mid_key(body.skip(6))
            &&& line_mark(line) == LineMark::Format(n) <==> known && number == Some(n) && n < 128
            &&& line_mark(line) == LineMark::Params(n) <==> params && payload_number(body.skip(7))
                == Some(n) && repeats(body) && repeats_one(body)
            &&& line_mark(line) is Bad <==> known && number is Some && number->0 >= 128 || params
                && payload_number(body.skip(7)) is Some && !repeats_one(body)
        }),
{
    reveal_strlit("a=mid:");
    reveal_strlit("a=rtpmap:");
    reveal_strlit("a=fmtp:");
    let body = line_body(line);
    if "a=mid:"@.is_prefix_of(body) {
        assert(body.take(6)[2] == 'm');
    }
    if "a=rtpmap:"@.is_prefix_of(body) {
        assert(body.take(9)[2] == 'r');
    }
    if "a=fmtp:"@.is_prefix_of(body) {
        assert(body.take(7)[2] == 'f');
    }
}

/// What is kept of an identifier are its first sixteen characters: letters and digits of ASCII
/// as they are, and underscores for the others.
pub proof fn law_identifier_kept(value: Seq<char>)
    ensures
        mid_key(value).len() == (if value.len() < 16 { value.len() as int } else { 16 }),
        forall|i: int|
            0 <= i < mid_key(value).len() ==> #[trigger] mid_key(value)[i] == (if '0' <= value[i]
                <= '9' || 'A' <= value[i] <= 'Z' || 'a' <= value[i] <= 'z' {
                value[i]
            } else {
                '_'
            }),
{
}

proof fn lemma_number_to_space(s: Seq<char>, started: bool, value: int, digits: Seq<char>)
    requires
        digits.len() < s.len(),
        s.take(digits.len() as int) == digits,
        s[digits.len() as int] == ' ',
        forall|i: int| 0 <= i < digits.len() ==> '0' <= #[trigger] digits[i] <= '9',
        started || digits.len() > 0,
    ensures
        number_to_space(s, started, value) == Some(value_behind(value, digits)),
    decreases digits.len(),
{
    if digits.len() > 0 {
        assert(s[0] == s.take(digits.len() as int)[0]);
        let rest = digits.drop_first();
        assert(s.drop_first().take(rest.len() as int) =~= rest) by {
            assert forall|i: int| 0 <= i < rest.len() implies s.drop_first()[i] == rest[i] by {
                assert(s.take(digits.len() as int)[i + 1] == digits[i + 1]);
            }
        }
        assert forall|i: int| 0 <= i < rest.len() implies '0' <= #[trigger] rest[i] <= '9' by {
            assert(rest[i] == digits[i + 1]);
        }
        lemma_number_to_space(
            s.drop_first(),
            true,
            10 * value + (s[0] as int - '0' as int),
            rest,
        );
    }
}

/// The number that digits spell behind those of another number.
pub open spec fn value_behind(value: int, digits: Seq<char>) -> int
    decreases digits.len(),
{
    if digits.len() == 0 {
        value
    } else {
        value_behind(10 * value + (digits[0] as int - '0' as int), digits.drop_first())
    }
}

proof fn lemma_value_behind(value: int, digits: Seq<char>)
    ensures
        digits.len() > 0 ==> value_behind(value, digits) == 10 * value_behind(
            value,
            digits.drop_last(),
        ) + (digits.last() as int - '0' as int),
    decreases digits.len(),
{
    if digits.len() > 1 {
        let next = 10 * value + (digits[0] as int - '0' as int);
        lemma_value_behind(next, digits.drop_first());
        assert(digits.drop_first().drop_last() =~= digits.drop_last().drop_first());
    } else if digits.len() == 1 {
        reveal_with_fuel(value_behind, 2);
        assert(digits.drop_first() =~= Seq::<char>::empty());
        assert(digits.drop_last() =~= Seq::<char>::empty());
    }
}

proof fn lemma_value_of(digits: Seq<char>)
    ensures
        value_behind(0, digits) == text::value_of(digits),
    decreases digits.len(),
{
    lemma_value_behind(0, digits);
    if digits.len() > 0 {
        lemma_value_of(digits.drop_last());
    }
}

/// A number before a space is read as what its digits spell, with a plus sign or without, as
/// long as it fits in a byte; and a text that does not start with digits and a space has none.
pub proof fn law_number_before_space(digits: Seq<char>, rest: Seq<char>, c: char)
    requires
        digits.len() > 0,
        forall|i: int| 0 <= i < digits.len() ==> '0' <= #[trigger] digits[i] <= '9',
        c != ' ' && !('0' <= c <= '9'),
    ensures
        payload_number(digits + seq![' '] + rest) == (if text::value_of(digits) <= 255 {
            Some(text::value_of(digits) as u8)
        } else {
            None
        }),
        payload_number(seq!['+'] + digits + seq![' '] + rest) == payload_number(
            digits + seq![' '] + rest,
        ),
        payload_number(digits) is None,
        payload_number(digits + seq![c] + rest) is None,
        payload_number(seq![' '] + rest) is None,
{
    let s = digits + seq![' '] + rest;
    assert(s.take(digits.len() as int) =~= digits);
    assert(s[0] == digits[0]);
    lemma_number_to_space(s, false, 0, digits);
    lemma_value_of(digits);
    let plus = seq!['+'] + digits + seq![' '] + rest;
    assert(plus.drop_first() =~= s);
    assert(plus[0] == '+');
    assert(digits.take(digits.len() as int) =~= digits);
    lemma_no_space(digits, digits, false, 0);
    let t = digits + seq![c] + rest;
    assert(t.take(digits.len() as int) =~= digits);
    assert(t[0] == digits[0]);
    assert(t[digits.len() as int] == c);
    lemma_no_space(t, digits, false, 0);
}

proof fn lemma_no_space(s: Seq<char>, digits: Seq<char>, started: bool, value: int)
    requires
        digits.len() <= s.len(),
        s.take(digits.len() as int) == digits,
        forall|i: int| 0 <= i < digits.len() ==> '0' <= #[trigger] digits[i] <= '9',
        digits.len() < s.len() ==> s[digits.len() as int] != ' ' && !('0'
            <= s[digits.len() as int] <= '9'),
    ensures
        number_to_space(s, started, value) is None,
    decreases digits.len(),
{
    if digits.len() > 0 {
        assert(s[0] == s.take(digits.len() as int)[0]);
        let rest = digits.drop_first();
        assert(s.drop_first().take(rest.len() as int) =~= rest) by {
            assert forall|i: int| 0 <= i < rest.len() implies s.drop_first()[i] == rest[i] by {
                assert(s.take(digits.len() as int)[i + 1] == digits[i + 1]);
            }
        }
        assert forall|i: int| 0 <= i < rest.len() implies '0' <= #[trigger] rest[i] <= '9' by {
            assert(rest[i] == digits[i + 1]);
        }
        lemma_no_space(
            s.drop_first(),
            rest,
            true,
            10 * value + (s[0] as int - '0' as int),
        );
    }
}

/// What stands behind the first space of a text is all of the rest.
pub proof fn law_behind_first_space(head: Seq<char>, rest: Seq<char>)
    requires
        forall|i: int| 0 <= i < head.len() ==> #[trigger] head[i] != ' ',
    ensures
        behind_space(head + seq![' '] + rest) == rest,
    decreases head.len(),
{
    let s = head + seq![' '] + rest;
    if head.len() == 0 {
        assert(s[0] == ' ');
        assert(s.drop_first() =~= rest);
    } else {
        let tail = head.drop_first();
        assert(s[0] == head[0]);
        assert(s.drop_first() =~= tail + seq![' '] + rest);
        assert forall|i: int| 0 <= i < tail.len() implies #[trigger] tail[i] != ' ' by {
            assert(tail[i] == head[i + 1]);
        }
        law_behind_first_space(tail, rest);
    }
}

/// What a mark carries is what it is seen to carry.
pub proof fn law_marks_seen_whole(mark: Mark)
    ensures
        match mark {
            Mark::Mid(key) => mark@ matches LineMark::Mid(k) && k == key@,
            Mark::Format(n) => mark@ == LineMark::Format(n),
            Mark::Params(n) => mark@ == LineMark::Params(n),
            Mark::Bad => mark@ is Bad,
            Mark::Other => mark@ is Other,
        },
{
}

/// An answer can be accepted exactly where it is acceptable.
pub proof fn law_acceptable_answers_accepted(answer: &str, r: bool)
    requires
        call_ensures(can_accept, (answer,), r),
    ensures
        r <==> acceptable(answer@),
{
}

/// A format that is repeated is named by `apt=`, wherever it stands; at most one is named where
/// no two of them stand in different places.
pub proof fn law_repeated_formats_named(s: Seq<char>, i: int, j: int)
    requires
        0 <= i < j,
        j + 4 <= s.len(),
    ensures
        s.subrange(i, i + 4) == seq!['a', 'p', 't', '='] ==> repeats(s),
        s.subrange(i, i + 4) == seq!['a', 'p', 't', '='] && s.subrange(j, j + 4) == seq![
            'a', 'p', 't', '=',
        ] ==> !repeats_one(s),
{
    let (a, b) = (s.subrange(i, i + 4), s.subrange(j, j + 4));
    if a == seq!['a', 'p', 't', '='] {
        assert(a[0] == s[i] && a[1] == s[i + 1] && a[2] == s[i + 2] && a[3] == s[i + 3]);
        assert(names_repeated(s, i));
    }
    if b == seq!['a', 'p', 't', '='] {
        assert(b[0] == s[j] && b[1] == s[j + 1] && b[2] == s[j + 2] && b[3] == s[j + 3]);
        assert(names_repeated(s, j));
    }
}

/// Where `apt=` does not stand, no format that is repeated is named; and where it stands in
/// one place alone, only one is.
pub proof fn law_no_others_named(s: Seq<char>, at: int)
    ensures
        (forall|i: int|
            0 <= i && i + 4 <= s.len() ==> #[trigger] s.subrange(i, i + 4) != seq![
                'a', 'p', 't', '=',
            ]) ==> !repeats(s) && repeats_one(s),
        (forall|i: int|
            0 <= i && i + 4 <= s.len() && i != at ==> #[trigger] s.subrange(i, i + 4) != seq![
                'a', 'p', 't', '=',
            ]) ==> repeats_one(s),
{
    assert forall|i: int| names_repeated(s, i) implies 0 <= i && i + 4 <= s.len() && s.subrange(
        i,
        i + 4,
    ) == seq!['a', 'p', 't', '='] by {
        assert(s.subrange(i, i + 4) =~= seq!['a', 'p', 't', '=']);
    }
}

/// The engine knows the codecs opus, vp8, vp9 and h264, and the format that repeats others,
/// in large letters or small.
pub proof fn law_known_codecs(s: Seq<char>, name: Seq<char>)
    requires
        name == "opus/"@ || name == "vp8/"@ || name == "vp9/"@ || name == "h264/"@ || name
            == "rtx/"@,
        name.len() <= s.len(),
        forall|i: int|
            0 <= i < name.len() ==> #[trigger] s[i] == name[i] || 'a' <= name[i] <= 'z' && s[i]
                as int == name[i] as int - 32,
    ensures
        is_known(s),
{
    reveal_strlit("opus/");
    reveal_strlit("vp8/");
    reveal_strlit("vp9/");
    reveal_strlit("h264/");
    reveal_strlit("rtx/");
    assert forall|i: int| 0 <= i < name.len() implies small(s[i]) == small(
        #[trigger] name[i],
    ) by {
        assert(s[i] == name[i] || 'a' <= name[i] <= 'z' && s[i] as int == name[i] as int - 32);
    }
    assert(starts_like(s, name));
}

/// A format that does not start with one of the known names is not known.
pub proof fn law_other_codecs(s: Seq<char>)
    requires
        s.len() < 4 || s[3] != '/' && (s.len() < 5 || s[4] != '/'),
    ensures
        !is_known(s),
{
    reveal_strlit("opus/");
    reveal_strlit("vp8/");
    reveal_strlit("vp9/");
    reveal_strlit("h264/");
    reveal_strlit("rtx/");
    let (a, b, c, d, e) = ("opus/"@, "vp8/"@, "vp9/"@, "h264/"@, "rtx/"@);
    assert(a.len() == 5 && b.len() == 4 && c.len() == 4 && d.len() == 5 && e.len() == 4);
    if starts_like(s, a) {
        assert(small(s[4]) == small(a[4]));
    }
    if starts_like(s, b) {
        assert(small(s[3]) == small(b[3]));
    }
    if starts_like(s, c) {
        assert(small(s[3]) == small(c[3]));
    }
    if starts_like(s, d) {
        assert(small(s[4]) == small(d[4]));
    }
    if starts_like(s, e) {
        assert(small(s[3]) == small(e[3]));
    }
}

/// A line is open where it gives parameters that may go on behind it: none are there, or they
/// end with a semicolon. It is stray where it names a format that is repeated, and gives no
/// parameters.
pub proof fn law_open_and_stray(line: Seq<char>)
    ensures
        ({
            let body = line_body(line);
            let params = "a=fmtp:"@.is_prefix_of(body) && payload_number(body.skip(7)) is Some;
            let shown = text::trimmed(body.skip(7));
            &&& is_open(line) <==> params && (!shown.contains(' ') || shown.last() == ';')
            &&& is_stray(line) <==> !params && repeats(body)
            &&& !(is_open(line) && is_stray(line))
        }),
{
}

} // verus!
