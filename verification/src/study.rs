//! Reading a study out of tagged text.
//!
//! The text is scanned line by line. A line of the form `[Name "value"]`
//! sets a slot; a position is recorded whenever a caption and a board have
//! both arrived since the last one was recorded.

use crate::text::{
    chars_of, contains, find_first, find_last, occurs_in, split, starts_with, string_of,
    strip_prefix, trim, trimmed, without_prefix,
};
use vstd::prelude::*;
use vstd::slice::{slice_subrange, slice_to_vec};

verus! {

/// One position of a study.
#[derive(Debug, PartialEq, Eq)]
pub struct PositionRecord {
    /// Place in the study, counted from 1.
    pub sequence_number: u64,
    /// Label of the position. A colon in it breaks the printed caption.
    pub caption: String,
    /// The position as the text gave it: the board layout, followed by the
    /// side to move and further fields.
    pub board_string: String,
    /// Whether the second side is to move.
    pub side_to_move_is_second: bool,
}

/// A study: its title and its positions in reading order.
#[derive(Debug, PartialEq, Eq)]
pub struct StudyDocument {
    pub title: String,
    pub records: Vec<PositionRecord>,
}

/// Why a text could not be used as a study.
#[derive(Debug, Clone, Copy, PartialEq, Eq, Structural)]
pub enum StudyError {
    /// The text is blank or holds none of the markers of a study.
    NotFound,
    /// The text holds no complete position.
    NoPositions,
    /// The image of the piece that `symbol` names cannot be used.
    BadImage { symbol: char },
}

/// What a `PositionRecord` stands for.
pub struct RecordView {
    pub sequence_number: nat,
    pub caption: Seq<char>,
    pub board_string: Seq<char>,
    pub side_to_move_is_second: bool,
}

/// What a `StudyDocument` stands for.
pub struct DocumentView {
    pub title: Seq<char>,
    pub records: Seq<RecordView>,
}

impl View for PositionRecord {
    type V = RecordView;

    open spec fn view(&self) -> RecordView {
        RecordView {
            sequence_number: self.sequence_number as nat,
            caption: self.caption@,
            board_string: self.board_string@,
            side_to_move_is_second: self.side_to_move_is_second,
        }
    }
}

/// The views of a sequence of records.
pub open spec fn record_views(records: Seq<PositionRecord>) -> Seq<RecordView> {
    records.map_values(|r: PositionRecord| r@)
}

impl View for StudyDocument {
    type V = DocumentView;

    open spec fn view(&self) -> DocumentView {
        DocumentView { title: self.title@, records: record_views(self.records@) }
    }
}

/// The state of a scan between two lines.
pub struct ScanState {
    /// The title so far; empty while none was seen.
    pub title: Seq<char>,
    /// Whether a `StudyName` tag has set the title.
    pub explicit_title_found: bool,
    /// Whether an `Event` tag has set the title.
    pub event_title_seeded: bool,
    /// Value of the latest `Event` tag.
    pub pending_event_name: Seq<char>,
    /// Value of the latest `ChapterName` tag not yet recorded.
    pub pending_chapter_name: Seq<char>,
    /// Value of the latest `FEN` tag not yet recorded.
    pub pending_board_string: Seq<char>,
    /// The positions recorded so far.
    pub records: Seq<RecordView>,
}

/// The title of a study whose text names none.
pub open spec fn default_title() -> Seq<char> {
    "Chess Positions"@
}

/// The prefix that is dropped from a title taken from an `Event` tag.
pub open spec fn event_title_prefix() -> Seq<char> {
    "WM25: "@
}

/// The marker of the second side in the side-to-move field.
pub open spec fn second_side_marker() -> Seq<char> {
    " b "@
}

/// The text strictly between the first and the last double quote of `line`,
/// where the last one comes after the first.
pub open spec fn between_quotes(line: Seq<char>) -> Option<Seq<char>> {
    match (line.index_of_first('"'), line.index_of_last('"')) {
        (Some(first), Some(last)) => if last > first {
            Some(line.subrange(first + 1, last))
        } else {
            None
        },
        _ => None,
    }
}

/// The value of a tag line that starts with `opening`.
pub open spec fn tag_value(line: Seq<char>, opening: Seq<char>) -> Option<Seq<char>> {
    if opening.is_prefix_of(line) {
        between_quotes(line)
    } else {
        None
    }
}

/// The state before the first line.
pub open spec fn initial_state() -> ScanState {
    ScanState {
        title: Seq::empty(),
        explicit_title_found: false,
        event_title_seeded: false,
        pending_event_name: Seq::empty(),
        pending_chapter_name: Seq::empty(),
        pending_board_string: Seq::empty(),
        records: Seq::empty(),
    }
}

/// The state after a trimmed line has set its slot.
pub open spec fn apply_tag(st: ScanState, line: Seq<char>) -> ScanState {
    if let Some(v) = tag_value(line, "[StudyName \""@) {
        ScanState { title: v, explicit_title_found: true, ..st }
    } else if let Some(v) = tag_value(line, "[ChapterName \""@) {
        ScanState { pending_chapter_name: v, ..st }
    } else if let Some(v) = tag_value(line, "[Event \""@) {
        if !st.explicit_title_found && !st.event_title_seeded {
            ScanState {
                title: without_prefix(v, event_title_prefix()),
                event_title_seeded: true,
                pending_event_name: v,
                ..st
            }
        } else {
            ScanState { pending_event_name: v, ..st }
        }
    } else if let Some(v) = tag_value(line, "[FEN \""@) {
        ScanState { pending_board_string: v, ..st }
    } else {
        st
    }
}

/// Whether a caption and a board are both waiting.
pub open spec fn pair_complete(st: ScanState) -> bool {
    st.pending_chapter_name.len() > 0 && st.pending_board_string.len() > 0
}

/// The position that the waiting caption and board make.
pub open spec fn pending_record(st: ScanState) -> RecordView {
    RecordView {
        sequence_number: st.records.len() + 1,
        caption: st.pending_chapter_name,
        board_string: st.pending_board_string,
        side_to_move_is_second: occurs_in(st.pending_board_string, second_side_marker()),
    }
}

/// Records the waiting pair, if there is one, and clears its two slots.
pub open spec fn emit(st: ScanState) -> ScanState {
    if pair_complete(st) {
        ScanState {
            pending_chapter_name: Seq::empty(),
            pending_board_string: Seq::empty(),
            records: st.records.push(pending_record(st)),
            ..st
        }
    } else {
        st
    }
}

/// The state after one more line.
pub open spec fn step(st: ScanState, line: Seq<char>) -> ScanState {
    emit(apply_tag(st, trim(line)))
}

/// The state after all of `lines`, from the initial state.
pub open spec fn scan(lines: Seq<Seq<char>>) -> ScanState
    decreases lines.len(),
{
    if lines.len() == 0 {
        initial_state()
    } else {
        step(scan(lines.drop_last()), lines.last())
    }
}

/// The outcome of a scan that ended in `st`.
pub open spec fn finish(st: ScanState) -> Result<DocumentView, StudyError> {
    if st.records.len() == 0 {
        Err(StudyError::NoPositions)
    } else {
        Ok(
            DocumentView {
                title: if st.title.len() == 0 {
                    default_title()
                } else {
                    st.title
                },
                records: st.records,
            },
        )
    }
}

/// The lines of a text.
pub open spec fn lines_of(text: Seq<char>) -> Seq<Seq<char>> {
    split(text, '\n')
}

/// What a text reads as.
pub open spec fn parse(text: Seq<char>) -> Result<DocumentView, StudyError> {
    finish(scan(lines_of(text)))
}

/// Two openings that differ in their second character are never both the
/// beginning of one line.
proof fn lemma_openings_differ(line: Seq<char>, a: Seq<char>, b: Seq<char>)
    requires
        a.len() >= 2,
        b.len() >= 2,
        a[1] != b[1],
    ensures
        !(a.is_prefix_of(line) && b.is_prefix_of(line)),
{
    if a.is_prefix_of(line) && b.is_prefix_of(line) {
        assert(a[1] == line.subrange(0, a.len() as int)[1]);
        assert(b[1] == line.subrange(0, b.len() as int)[1]);
    }
}

/// A line is a tag of one kind at most: it begins with at most one of the
/// four openings, and with none of them if it is empty.
pub proof fn lemma_one_opening(line: Seq<char>)
    ensures
        !("[StudyName \""@.is_prefix_of(line) && "[ChapterName \""@.is_prefix_of(line)),
        !("[StudyName \""@.is_prefix_of(line) && "[Event \""@.is_prefix_of(line)),
        !("[StudyName \""@.is_prefix_of(line) && "[FEN \""@.is_prefix_of(line)),
        !("[ChapterName \""@.is_prefix_of(line) && "[Event \""@.is_prefix_of(line)),
        !("[ChapterName \""@.is_prefix_of(line) && "[FEN \""@.is_prefix_of(line)),
        !("[Event \""@.is_prefix_of(line) && "[FEN \""@.is_prefix_of(line)),
        line.len() == 0 ==> !"[StudyName \""@.is_prefix_of(line) && !"[ChapterName \""@.is_prefix_of(
            line,
        ) && !"[Event \""@.is_prefix_of(line) && !"[FEN \""@.is_prefix_of(line),
{
    reveal_strlit("[StudyName \"");
    reveal_strlit("[ChapterName \"");
    reveal_strlit("[Event \"");
    reveal_strlit("[FEN \"");
    let study = "[StudyName \""@;
    let chapter = "[ChapterName \""@;
    let event = "[Event \""@;
    let board = "[FEN \""@;
    lemma_openings_differ(line, study, chapter);
    lemma_openings_differ(line, study, event);
    lemma_openings_differ(line, study, board);
    lemma_openings_differ(line, chapter, event);
    lemma_openings_differ(line, chapter, board);
    lemma_openings_differ(line, event, board);
}

/// Whether at most one of caption and board is waiting. This holds between
/// any two lines of a scan.
pub open spec fn settled(st: ScanState) -> bool {
    !pair_complete(st)
}

/// A step leaves no complete pair waiting, records at most one position,
/// and numbers the positions from 1 if they were so numbered before.
pub proof fn lemma_step(st: ScanState, line: Seq<char>)
    ensures
        settled(step(st, line)),
        st.records.len() <= step(st, line).records.len() <= st.records.len() + 1,
        settled(st) && trim(line).len() == 0 ==> step(st, line) == st,
        numbered(st.records) ==> numbered(step(st, line).records),
{
    lemma_one_opening(trim(line));
    let applied = apply_tag(st, trim(line));
    assert(applied.records == st.records);
}

/// Whether each record carries its place in the sequence, counted from 1.
pub open spec fn numbered(records: Seq<RecordView>) -> bool {
    forall|i: int| 0 <= i < records.len() ==> (#[trigger] records[i]).sequence_number == i + 1
}

/// A scan leaves no complete pair waiting, records at most one position per
/// line, and numbers the positions 1, 2, 3 and so on in the order in which
/// their pairs were completed.
pub proof fn lemma_scan(lines: Seq<Seq<char>>)
    ensures
        settled(scan(lines)),
        scan(lines).records.len() <= lines.len(),
        numbered(scan(lines).records),
    decreases lines.len(),
{
    if lines.len() > 0 {
        lemma_scan(lines.drop_last());
        lemma_step(scan(lines.drop_last()), lines.last());
    }
}

/// The accumulator of a scan: the slots that tag lines set, and the
/// positions recorded so far.
pub struct StudyParser {
    title: Vec<char>,
    explicit_title_found: bool,
    event_title_seeded: bool,
    pending_event_name: Vec<char>,
    pending_chapter_name: Vec<char>,
    pending_board_string: Vec<char>,
    records: Vec<PositionRecord>,
}

impl View for StudyParser {
    type V = ScanState;

    closed spec fn view(&self) -> ScanState {
        ScanState {
            title: self.title@,
            explicit_title_found: self.explicit_title_found,
            event_title_seeded: self.event_title_seeded,
            pending_event_name: self.pending_event_name@,
            pending_chapter_name: self.pending_chapter_name@,
            pending_board_string: self.pending_board_string@,
            records: record_views(self.records@),
        }
    }
}

/// The text between the first and the last double quote of `line`.
pub fn quoted(line: &[char]) -> (r: Option<&[char]>)
    ensures
        match r {
            Some(v) => between_quotes(line@) == Some(v@),
            None => between_quotes(line@) is None,
        },
{
    match (find_first(line, '"'), find_last(line, '"')) {
        (Some(first), Some(last)) => {
            proof {
                line@.index_of_last_ensures('"');
            }
            if last > first {
                Some(slice_subrange(line, first + 1, last))
            } else {
                None
            }
        },
        _ => None,
    }
}

/// The value of `line` if it is a tag line that starts with `opening`.
pub fn tag_value_of<'a>(line: &'a [char], opening: &str) -> (r: Option<&'a [char]>)
    ensures
        match r {
            Some(v) => tag_value(line@, opening@) == Some(v@),
            None => tag_value(line@, opening@) is None,
        },
{
    if starts_with(line, opening) {
        quoted(line)
    } else {
        None
    }
}

impl StudyParser {
    /// A parser that has seen no line.
    pub fn new() -> (p: StudyParser)
        ensures
            p@ == initial_state(),
    {
        let p = StudyParser {
            title: Vec::new(),
            explicit_title_found: false,
            event_title_seeded: false,
            pending_event_name: Vec::new(),
            pending_chapter_name: Vec::new(),
            pending_board_string: Vec::new(),
            records: Vec::new(),
        };
        assert(p@.records =~= Seq::empty());
        p
    }

    /// The number of positions recorded so far.
    pub fn recorded(&self) -> (n: usize)
        ensures
            n == self@.records.len(),
    {
        self.records.len()
    }

    /// Takes in the next line of the text.
    pub fn feed_line(&mut self, line: &[char])
        requires
            old(self)@.records.len() < u64::MAX,
        ensures
            final(self)@ == step(old(self)@, line@),
    {
        let line = trimmed(line);
        if let Some(v) = tag_value_of(line, "[StudyName \"") {
            self.title = slice_to_vec(v);
            self.explicit_title_found = true;
        } else if let Some(v) = tag_value_of(line, "[ChapterName \"") {
            self.pending_chapter_name = slice_to_vec(v);
        } else if let Some(v) = tag_value_of(line, "[Event \"") {
            self.pending_event_name = slice_to_vec(v);
            if !self.explicit_title_found && !self.event_title_seeded {
                self.title = slice_to_vec(strip_prefix(v, "WM25: "));
                self.event_title_seeded = true;
            }
        } else if let Some(v) = tag_value_of(line, "[FEN \"") {
            self.pending_board_string = slice_to_vec(v);
        }
        if self.pending_chapter_name.len() > 0 && self.pending_board_string.len() > 0 {
            let marker = chars_of(" b ");
            let record = PositionRecord {
                sequence_number: self.records.len() as u64 + 1,
                caption: string_of(self.pending_chapter_name.as_slice()),
                board_string: string_of(self.pending_board_string.as_slice()),
                side_to_move_is_second: contains(
                    self.pending_board_string.as_slice(),
                    marker.as_slice(),
                ),
            };
            assert(record@ == pending_record(self@));
            self.records.push(record);
            self.pending_chapter_name = Vec::new();
            self.pending_board_string = Vec::new();
            assert(self@.records =~= old(self)@.records.push(record@));
        }
    }

    /// Ends the scan: the study read, or the reason why there is none.
    pub fn finish(self) -> (r: Result<StudyDocument, StudyError>)
        ensures
            match r {
                Ok(doc) => finish(self@) == Ok::<DocumentView, StudyError>(doc@),
                Err(e) => finish(self@) == Err::<DocumentView, StudyError>(e),
            },
    {
        if self.records.len() == 0 {
            return Err(StudyError::NoPositions);
        }
        let title = if self.title.len() == 0 {
            "Chess Positions".to_owned()
        } else {
            string_of(self.title.as_slice())
        };
        Ok(StudyDocument { title, records: self.records })
    }
}

/// Reads a study out of `text`.
///
/// Every line is trimmed; a line `[StudyName "v"]`, `[ChapterName "v"]`,
/// `[Event "v"]` or `[FEN "v"]` sets its slot, any other line is passed
/// over. The result is an error exactly when no position was recorded.
pub fn parse_study(text: &str) -> (r: Result<StudyDocument, StudyError>)
    ensures
        match r {
            Ok(doc) => parse(text@) == Ok::<DocumentView, StudyError>(doc@),
            Err(e) => parse(text@) == Err::<DocumentView, StudyError>(e),
        },
        r is Err <==> scan(lines_of(text@)).records.len() == 0,
        r matches Ok(doc) ==> doc@.records.len() > 0 && numbered(doc@.records),
{
    let chars = chars_of(text);
    let s = chars.as_slice();
    let n: usize = s.len();
    let mut parser = StudyParser::new();
    let mut start: usize = 0;
    let mut i: usize = 0;
    while i < n
        invariant
            start <= i <= n,
            n == s@.len(),
            lines_of(s@.take(i as int)).len() >= 1,
            parser@ == scan(lines_of(s@.take(i as int)).drop_last()),
            lines_of(s@.take(i as int)).last() == s@.subrange(start as int, i as int),
            2 * parser@.records.len() <= start,
        decreases n - i,
    {
        let ghost before = lines_of(s@.take(i as int));
        proof {
            assert(s@.take(i + 1).drop_last() =~= s@.take(i as int));
            lemma_scan(before.drop_last());
        }
        if s[i] == '\n' {
            let line = slice_subrange(s, start, i);
            proof {
                lemma_step(parser@, line@);
                assert(trim(Seq::<char>::empty()) == Seq::<char>::empty());
            }
            parser.feed_line(line);
            start = i + 1;
            proof {
                let after = lines_of(s@.take(i + 1));
                assert(after == before.push(Seq::<char>::empty()));
                assert(after.drop_last() =~= before);
                assert(before.drop_last().push(before.last()) =~= before);
                assert(s@.subrange(start as int, i + 1) =~= Seq::<char>::empty());
            }
        } else {
            proof {
                let after = lines_of(s@.take(i + 1));
                assert(after == before.drop_last().push(before.last().push(s@[i as int])));
                assert(after.drop_last() =~= before.drop_last());
                assert(s@.subrange(start as int, i + 1) =~= s@.subrange(
                    start as int,
                    i as int,
                ).push(s@[i as int]));
            }
        }
        i += 1;
    }
    let line = slice_subrange(s, start, n);
    proof {
        assert(s@.take(n as int) =~= s@);
        let all = lines_of(s@);
        assert(all.drop_last().push(all.last()) =~= all);
        lemma_scan(all);
    }
    parser.feed_line(line);
    parser.finish()
}

/// Whether a text can be taken for a study at all: it is not blank, and it
/// holds the beginning of an `Event` tag or of a `StudyName` tag.
pub open spec fn looks_like_study(content: Seq<char>) -> bool {
    &&& trim(content).len() > 0
    &&& (occurs_in(content, "[Event"@) || occurs_in(content, "[StudyName"@))
}

/// Refuses a text that cannot be a study.
pub fn check_content(content: &str) -> (r: Result<(), StudyError>)
    ensures
        r is Ok <==> looks_like_study(content@),
        r is Err ==> r == Err::<(), StudyError>(StudyError::NotFound),
{
    let chars = chars_of(content);
    let s = chars.as_slice();
    if trimmed(s).len() == 0 {
        return Err(StudyError::NotFound);
    }
    let event = chars_of("[Event");
    let name = chars_of("[StudyName");
    if contains(s, event.as_slice()) || contains(s, name.as_slice()) {
        Ok(())
    } else {
        Err(StudyError::NotFound)
    }
}

impl StudyError {
    /// What went wrong, in words.
    pub fn message(&self) -> (text: String)
        ensures
            text@ == match *self {
                StudyError::NotFound => "Study not found or invalid: no chess positions detected"@,
                StudyError::NoPositions => "No chess positions found in the study"@,
                StudyError::BadImage { symbol } => "PNG loading failed for piece '"@.push(
                    symbol,
                ).push('\''),
            },
    {
        match self {
            StudyError::NotFound => {
                "Study not found or invalid: no chess positions detected".to_owned()
            },
            StudyError::NoPositions => "No chess positions found in the study".to_owned(),
            StudyError::BadImage { symbol } => {
                let mut chars = chars_of("PNG loading failed for piece '");
                chars.push(*symbol);
                chars.push('\'');
                string_of(chars.as_slice())
            },
        }
    }
}

} // verus!
