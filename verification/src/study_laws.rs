//! What holds of every text that the parser reads.
//!
//! Complete pairs of a caption tag and a board tag give one position each,
//! numbered in their order, whatever stands between them; a text written
//! out as such pairs reads as exactly those positions; and the title is that
//! of the last name tag, else of the first event tag.

use crate::study::{
    apply_tag, default_title, emit, event_title_prefix, initial_state, lemma_one_opening,
    lemma_scan, lemma_step, lines_of,
    parse, pending_record, scan, second_side_marker, settled, step, tag_value, DocumentView,
    RecordView, ScanState, StudyError,
};
use crate::text::{
    is_space, lemma_split_nonempty, occurs_in, trim, trim_end, trim_start, without_prefix,
};
use vstd::prelude::*;

verus! {

/// A caption and a board, and the order in which their two lines stand.
pub struct TagPair {
    pub caption: Seq<char>,
    pub board: Seq<char>,
    pub board_first: bool,
}

/// A pair is well formed when neither value is empty or runs over a line
/// break.
pub open spec fn well_formed(pair: TagPair) -> bool {
    &&& pair.caption.len() > 0
    &&& pair.board.len() > 0
    &&& !pair.caption.contains('\n')
    &&& !pair.board.contains('\n')
}

/// The tag line that starts with `opening` and carries `value`.
pub open spec fn tag_line(opening: Seq<char>, value: Seq<char>) -> Seq<char> {
    opening + value + "\"]"@
}

/// The caption line of a pair.
pub open spec fn caption_line(pair: TagPair) -> Seq<char> {
    tag_line("[ChapterName \""@, pair.caption)
}

/// The board line of a pair.
pub open spec fn board_line(pair: TagPair) -> Seq<char> {
    tag_line("[FEN \""@, pair.board)
}

/// The first of the two lines of a pair.
pub open spec fn first_line(pair: TagPair) -> Seq<char> {
    if pair.board_first {
        board_line(pair)
    } else {
        caption_line(pair)
    }
}

/// The second of the two lines of a pair.
pub open spec fn second_line(pair: TagPair) -> Seq<char> {
    if pair.board_first {
        caption_line(pair)
    } else {
        board_line(pair)
    }
}

/// The text of pairs: for each pair its two lines, each ended by a line
/// break.
pub open spec fn pairs_text(pairs: Seq<TagPair>) -> Seq<char>
    decreases pairs.len(),
{
    if pairs.len() == 0 {
        Seq::<char>::empty()
    } else {
        pairs_text(pairs.drop_last()) + first_line(pairs.last()).push('\n') + second_line(
            pairs.last(),
        ).push('\n')
    }
}

/// The position that the pair at place `i` is read as.
pub open spec fn record_of(pair: TagPair, i: int) -> RecordView {
    RecordView {
        sequence_number: (i + 1) as nat,
        caption: pair.caption,
        board_string: pair.board,
        side_to_move_is_second: occurs_in(pair.board, second_side_marker()),
    }
}

/// The positions that `pairs` are read as.
pub open spec fn records_of(pairs: Seq<TagPair>) -> Seq<RecordView> {
    Seq::new(pairs.len(), |i: int| record_of(pairs[i], i))
}

/// Appending a run of characters without line break extends the last line.
proof fn lemma_lines_append(t: Seq<char>, run: Seq<char>)
    requires
        !run.contains('\n'),
    ensures
        lines_of(t + run).len() >= 1,
        lines_of(t).len() >= 1,
        lines_of(t + run).drop_last() == lines_of(t).drop_last(),
        lines_of(t + run).last() == lines_of(t).last() + run,
    decreases run.len(),
{
    lemma_split_nonempty(t, '\n');
    lemma_split_nonempty(t + run, '\n');
    if run.len() == 0 {
        assert(t + run =~= t);
        assert(lines_of(t).last() + run =~= lines_of(t).last());
    } else {
        let shorter = run.drop_last();
        assert(run[run.len() - 1] == run.last());
        assert(run.last() != '\n');
        assert forall|j: int| 0 <= j < shorter.len() implies shorter[j] != '\n' by {
            assert(shorter[j] == run[j]);
        }
        lemma_lines_append(t, shorter);
        assert((t + run).drop_last() =~= t + shorter);
        assert((t + run).last() == run.last());
        let before = lines_of(t + shorter);
        let after = lines_of(t + run);
        assert(after == before.drop_last().push(before.last().push(run.last())));
        assert(after.drop_last() =~= before.drop_last());
        assert(lines_of(t).last() + shorter.push(run.last()) =~= (lines_of(t).last()
            + shorter).push(run.last()));
        assert(shorter.push(run.last()) =~= run);
    }
}

/// The lines of a text before its last one.
spec fn ended_lines(t: Seq<char>) -> Seq<Seq<char>> {
    lines_of(t).drop_last()
}

/// Appending a line and its line break to a text whose last line is empty
/// adds that line to the ended ones, and leaves the last line empty.
proof fn lemma_lines_append_line(t: Seq<char>, line: Seq<char>)
    requires
        !line.contains('\n'),
        lines_of(t).len() >= 1,
        lines_of(t).last().len() == 0,
    ensures
        lines_of(t + line.push('\n')).len() >= 1,
        lines_of(t + line.push('\n')).last().len() == 0,
        ended_lines(t + line.push('\n')) == ended_lines(t).push(line),
{
    lemma_lines_append(t, line);
    let whole = t + line.push('\n');
    assert(whole.drop_last() =~= t + line);
    assert(whole.last() == '\n');
    let before = lines_of(t + line);
    assert(lines_of(whole) == before.push(Seq::<char>::empty()));
    assert(lines_of(whole).drop_last() =~= before);
    assert(before.drop_last().push(before.last()) =~= before);
    assert(lines_of(t).last() + line =~= line);
}

/// A line that starts with `[` and ends with `]` is not changed by
/// trimming.
proof fn lemma_trim_bracketed(line: Seq<char>)
    requires
        line.len() >= 2,
        line.first() == '[',
        line.last() == ']',
    ensures
        trim(line) == line,
{
    assert(!is_space('['));
    assert(!is_space(']'));
    assert(trim_start(line) == line);
    assert(trim_end(line) == line);
}

/// A tag line gives its value back, whatever the value holds, provided the
/// opening ends with the only double quote in it.
proof fn lemma_tag_line_value(opening: Seq<char>, value: Seq<char>)
    requires
        opening.len() >= 2,
        opening.first() == '[',
        opening.last() == '"',
        forall|j: int| 0 <= j < opening.len() - 1 ==> opening[j] != '"',
    ensures
        trim(tag_line(opening, value)) == tag_line(opening, value),
        tag_value(tag_line(opening, value), opening) == Some(value),
{
    reveal_strlit("\"]");
    let line = tag_line(opening, value);
    let a = opening.len() - 1;
    let b = line.len() - 2;
    assert(line.len() == opening.len() + value.len() + 2);
    assert(line.first() == '[');
    assert(line.last() == ']');
    lemma_trim_bracketed(line);
    assert(opening.is_prefix_of(line)) by {
        assert(line.subrange(0, opening.len() as int) =~= opening);
    }
    assert(line[a] == '"');
    assert(line[b] == '"');
    assert forall|j: int| 0 <= j < a implies line[j] != '"' by {
        assert(line[j] == opening[j]);
    }
    line.index_of_first_ensures('"');
    line.index_of_last_ensures('"');
    assert(line.contains('"'));
    assert(line.index_of_first('"') == Some(a));
    assert(line.index_of_last('"') == Some(b));
    assert(line.subrange(a + 1, b) =~= value);
}

/// Reading the two lines of a well-formed pair, with nothing waiting,
/// records the pair's position and leaves nothing waiting.
proof fn lemma_pair_steps(st: ScanState, pair: TagPair)
    requires
        well_formed(pair),
        st.pending_chapter_name.len() == 0,
        st.pending_board_string.len() == 0,
    ensures
        step(step(st, first_line(pair)), second_line(pair)) == (ScanState {
            records: st.records.push(record_of(pair, st.records.len() as int)),
            ..st
        }),
{
    reveal_strlit("[ChapterName \"");
    reveal_strlit("[FEN \"");
    let c = caption_line(pair);
    let b = board_line(pair);
    lemma_tag_line_value("[ChapterName \""@, pair.caption);
    lemma_tag_line_value("[FEN \""@, pair.board);
    lemma_one_opening(c);
    lemma_one_opening(b);
    let with_caption = ScanState { pending_chapter_name: pair.caption, ..st };
    let with_board = ScanState { pending_board_string: pair.board, ..st };
    let with_both = ScanState {
        pending_chapter_name: pair.caption,
        pending_board_string: pair.board,
        ..st
    };
    assert(apply_tag(st, c) == with_caption);
    assert(apply_tag(st, b) == with_board);
    assert(apply_tag(with_caption, b) == with_both);
    assert(apply_tag(with_board, c) == with_both);
    assert(emit(with_caption) == with_caption);
    assert(emit(with_board) == with_board);
    assert(pending_record(with_both) == record_of(pair, st.records.len() as int));
    assert(st.pending_chapter_name =~= Seq::<char>::empty());
    assert(st.pending_board_string =~= Seq::<char>::empty());
    assert(emit(with_both) == (ScanState {
        records: st.records.push(record_of(pair, st.records.len() as int)),
        ..st
    }));
}

/// The text of well-formed pairs ends in an empty line, and the scan of the
/// lines before it has recorded one position for each pair.
proof fn lemma_pairs_scan(pairs: Seq<TagPair>)
    requires
        forall|i: int| 0 <= i < pairs.len() ==> well_formed(#[trigger] pairs[i]),
    ensures
        lines_of(pairs_text(pairs)).len() >= 1,
        lines_of(pairs_text(pairs)).last().len() == 0,
        scan(ended_lines(pairs_text(pairs))) == (ScanState {
            records: records_of(pairs),
            ..initial_state()
        }),
    decreases pairs.len(),
{
    if pairs.len() == 0 {
        assert(ended_lines(pairs_text(pairs)) =~= Seq::<Seq<char>>::empty());
        assert(records_of(pairs) =~= Seq::<RecordView>::empty());
    } else {
        let rest = pairs.drop_last();
        let pair = pairs.last();
        assert(well_formed(pair));
        assert forall|i: int| 0 <= i < rest.len() implies well_formed(#[trigger] rest[i]) by {
            assert(rest[i] == pairs[i]);
        }
        lemma_pairs_scan(rest);
        let t0 = pairs_text(rest);
        let l1 = first_line(pair);
        let l2 = second_line(pair);
        lemma_line_has_no_break(pair);
        lemma_lines_append_line(t0, l1);
        let t1 = t0 + l1.push('\n');
        lemma_lines_append_line(t1, l2);
        let t2 = t1 + l2.push('\n');
        assert(pairs_text(pairs) == t2);
        let st0 = scan(ended_lines(t0));
        let e1 = ended_lines(t1);
        let e2 = ended_lines(t2);
        assert(e1.drop_last() =~= ended_lines(t0));
        assert(e2.drop_last() =~= e1);
        assert(scan(e1) == step(st0, l1));
        assert(scan(e2) == step(scan(e1), l2));
        lemma_pair_steps(st0, pair);
        assert(st0.records.push(record_of(pair, st0.records.len() as int)) =~= records_of(pairs));
    }
}

/// Neither line of a well-formed pair holds a line break.
proof fn lemma_line_has_no_break(pair: TagPair)
    requires
        well_formed(pair),
    ensures
        !first_line(pair).contains('\n'),
        !second_line(pair).contains('\n'),
{
    reveal_strlit("[ChapterName \"");
    reveal_strlit("[FEN \"");
    reveal_strlit("\"]");
    let c = caption_line(pair);
    let b = board_line(pair);
    assert forall|j: int| 0 <= j < c.len() implies c[j] != '\n' by {
        if 14 <= j < 14 + pair.caption.len() {
            assert(c[j] == pair.caption[j - 14]);
        }
    }
    assert forall|j: int| 0 <= j < b.len() implies b[j] != '\n' by {
        if 6 <= j < 6 + pair.board.len() {
            assert(b[j] == pair.board[j - 6]);
        }
    }
}

/// A text made of `n` complete pairs of a caption line and a board line
/// reads as exactly `n` positions, whichever of its two lines comes first in
/// each pair: the position at place `i` carries the caption and the board of
/// pair `i` and the number `i + 1`. The text is refused exactly when it
/// holds no pair.
pub proof fn lemma_pairs_are_read_in_order(pairs: Seq<TagPair>)
    requires
        forall|i: int| 0 <= i < pairs.len() ==> well_formed(#[trigger] pairs[i]),
    ensures
        scan(lines_of(pairs_text(pairs))).records == records_of(pairs),
        pairs.len() == 0 ==> parse(pairs_text(pairs)) == Err::<DocumentView, StudyError>(
            StudyError::NoPositions,
        ),
        pairs.len() > 0 ==> parse(pairs_text(pairs)) == Ok::<DocumentView, StudyError>(
            DocumentView { title: default_title(), records: records_of(pairs) },
        ),
{
    lemma_pairs_scan(pairs);
    let lines = lines_of(pairs_text(pairs));
    let st = scan(ended_lines(pairs_text(pairs)));
    assert(lines.last() =~= Seq::<char>::empty());
    assert(trim(Seq::<char>::empty()) == Seq::<char>::empty());
    assert(settled(st));
    lemma_step(st, lines.last());
    assert(scan(lines) == st);
}

/// The value of the last `StudyName` tag among `lines`.
pub open spec fn last_study_name(lines: Seq<Seq<char>>) -> Option<Seq<char>>
    decreases lines.len(),
{
    if lines.len() == 0 {
        None
    } else {
        match tag_value(trim(lines.last()), "[StudyName \""@) {
            Some(v) => Some(v),
            None => last_study_name(lines.drop_last()),
        }
    }
}

/// The value of the first `Event` tag among `lines` that no `StudyName` tag
/// comes before.
pub open spec fn first_free_event(lines: Seq<Seq<char>>) -> Option<Seq<char>>
    decreases lines.len(),
{
    if lines.len() == 0 {
        None
    } else {
        match first_free_event(lines.drop_last()) {
            Some(v) => Some(v),
            None => if last_study_name(lines.drop_last()) is None {
                tag_value(trim(lines.last()), "[Event \""@)
            } else {
                None
            },
        }
    }
}

/// The title that `lines` give: the value of the last `StudyName` tag; where
/// there is none, the value of the first `Event` tag, without the prefix
/// `WM25: `; where there is neither, the empty title, in place of which a
/// study gets the default title.
pub open spec fn title_of(lines: Seq<Seq<char>>) -> Seq<char> {
    match last_study_name(lines) {
        Some(v) => v,
        None => match first_free_event(lines) {
            Some(v) => without_prefix(v, event_title_prefix()),
            None => Seq::<char>::empty(),
        },
    }
}

/// A name tag always wins over an event tag, wherever the two stand: the
/// title after a scan is the one that `title_of` describes.
pub proof fn lemma_title(lines: Seq<Seq<char>>)
    ensures
        scan(lines).title == title_of(lines),
        scan(lines).explicit_title_found == last_study_name(lines) is Some,
        scan(lines).event_title_seeded == first_free_event(lines) is Some,
    decreases lines.len(),
{
    if lines.len() > 0 {
        let before = lines.drop_last();
        lemma_title(before);
        lemma_one_opening(trim(lines.last()));
    }
}

/// What the three cases of the title come to, for a text that holds at
/// least one position.
pub proof fn lemma_title_of_study(text: Seq<char>)
    requires
        parse(text) is Ok,
    ensures
        parse(text)->Ok_0.title == if title_of(lines_of(text)).len() == 0 {
            default_title()
        } else {
            title_of(lines_of(text))
        },
{
    lemma_title(lines_of(text));
}

/// What a line does to the two slots of a pair.
pub enum SlotEvent {
    /// A `ChapterName` tag with this value.
    Caption(Seq<char>),
    /// A `FEN` tag with this value.
    Board(Seq<char>),
}

/// What `line` does to the two slots of a pair, if anything.
pub open spec fn slot_event(line: Seq<char>) -> Option<SlotEvent> {
    if let Some(v) = tag_value(trim(line), "[ChapterName \""@) {
        Some(SlotEvent::Caption(v))
    } else if let Some(v) = tag_value(trim(line), "[FEN \""@) {
        Some(SlotEvent::Board(v))
    } else {
        None
    }
}

/// The caption and board tags among `lines`, in their order.
pub open spec fn slot_events(lines: Seq<Seq<char>>) -> Seq<SlotEvent>
    decreases lines.len(),
{
    if lines.len() == 0 {
        Seq::<SlotEvent>::empty()
    } else {
        match slot_event(lines.last()) {
            Some(e) => slot_events(lines.drop_last()).push(e),
            None => slot_events(lines.drop_last()),
        }
    }
}

/// The two tags of a pair, in the order in which the pair has them.
pub open spec fn events_of_pair(pair: TagPair) -> Seq<SlotEvent> {
    if pair.board_first {
        seq![SlotEvent::Board(pair.board), SlotEvent::Caption(pair.caption)]
    } else {
        seq![SlotEvent::Caption(pair.caption), SlotEvent::Board(pair.board)]
    }
}

/// The tags of `pairs`, pair after pair.
pub open spec fn events_of_pairs(pairs: Seq<TagPair>) -> Seq<SlotEvent>
    decreases pairs.len(),
{
    if pairs.len() == 0 {
        Seq::<SlotEvent>::empty()
    } else {
        events_of_pairs(pairs.drop_last()) + events_of_pair(pairs.last())
    }
}

/// The part of the state that caption and board tags work on.
pub struct Slots {
    pub caption: Seq<char>,
    pub board: Seq<char>,
    pub records: Seq<RecordView>,
}

/// The slots of a state.
pub open spec fn slots_of(st: ScanState) -> Slots {
    Slots {
        caption: st.pending_chapter_name,
        board: st.pending_board_string,
        records: st.records,
    }
}

/// The slots after one more tag.
pub open spec fn slots_after(s: Slots, e: SlotEvent) -> Slots {
    let set = match e {
        SlotEvent::Caption(v) => Slots { caption: v, ..s },
        SlotEvent::Board(v) => Slots { board: v, ..s },
    };
    if set.caption.len() > 0 && set.board.len() > 0 {
        Slots {
            caption: Seq::empty(),
            board: Seq::empty(),
            records: set.records.push(
                RecordView {
                    sequence_number: set.records.len() + 1,
                    caption: set.caption,
                    board_string: set.board,
                    side_to_move_is_second: occurs_in(set.board, second_side_marker()),
                },
            ),
        }
    } else {
        set
    }
}

/// The slots after all of `events`, from empty slots.
pub open spec fn slots_run(events: Seq<SlotEvent>) -> Slots
    decreases events.len(),
{
    if events.len() == 0 {
        Slots { caption: Seq::empty(), board: Seq::empty(), records: Seq::empty() }
    } else {
        slots_after(slots_run(events.drop_last()), events.last())
    }
}

/// The slots after a scan depend on the caption and board tags alone: lines
/// of any other kind, wherever they stand, change nothing in them.
pub proof fn lemma_slots_follow_tags(lines: Seq<Seq<char>>)
    ensures
        slots_of(scan(lines)) == slots_run(slot_events(lines)),
    decreases lines.len(),
{
    if lines.len() > 0 {
        let before = lines.drop_last();
        lemma_slots_follow_tags(before);
        lemma_scan(before);
        let st = scan(before);
        let line = trim(lines.last());
        let applied = apply_tag(st, line);
        lemma_one_opening(line);
        match slot_event(lines.last()) {
            Some(e) => {
                assert(slot_events(lines).drop_last() =~= slot_events(before));
                assert(slots_of(emit(applied)) == slots_after(slots_of(st), e));
            },
            None => {
                assert(slots_of(applied) == slots_of(st));
                assert(emit(applied) == applied);
            },
        }
    }
}

/// Tag after tag, complete pairs leave one position each and nothing
/// waiting.
proof fn lemma_slots_of_pairs(pairs: Seq<TagPair>)
    requires
        forall|i: int|
            0 <= i < pairs.len() ==> (#[trigger] pairs[i]).caption.len() > 0 && pairs[i].board.len()
                > 0,
    ensures
        slots_run(events_of_pairs(pairs)) == (Slots {
            caption: Seq::empty(),
            board: Seq::empty(),
            records: records_of(pairs),
        }),
    decreases pairs.len(),
{
    if pairs.len() == 0 {
        assert(records_of(pairs) =~= Seq::<RecordView>::empty());
    } else {
        let rest = pairs.drop_last();
        let pair = pairs.last();
        assert forall|i: int| 0 <= i < rest.len() implies (#[trigger] rest[i]).caption.len() > 0
            && rest[i].board.len() > 0 by {
            assert(rest[i] == pairs[i]);
        }
        lemma_slots_of_pairs(rest);
        let two = events_of_pair(pair);
        let all = events_of_pairs(pairs);
        let one = events_of_pairs(rest).push(two[0]);
        assert(all =~= one.push(two[1]));
        assert(all.drop_last() =~= one);
        assert(one.drop_last() =~= events_of_pairs(rest));
        let s0 = slots_run(events_of_pairs(rest));
        assert(slots_run(one) == slots_after(s0, two[0]));
        assert(slots_run(all) == slots_after(slots_run(one), two[1]));
        assert(s0.records.push(record_of(pair, s0.records.len() as int)) =~= records_of(pairs));
    }
}

/// Whatever else a text holds, and wherever it holds it: if its caption and
/// board tags, taken in their order, are `n` pairs of one caption and one
/// board each, in either order and neither value empty, then the text reads
/// as exactly `n` positions. The position at place `i` carries the caption
/// and the board of pair `i` and the number `i + 1`.
pub proof fn lemma_complete_pairs_give_positions(text: Seq<char>, pairs: Seq<TagPair>)
    requires
        slot_events(lines_of(text)) == events_of_pairs(pairs),
        forall|i: int|
            0 <= i < pairs.len() ==> (#[trigger] pairs[i]).caption.len() > 0 && pairs[i].board.len()
                > 0,
    ensures
        scan(lines_of(text)).records == records_of(pairs),
        parse(text) is Ok <==> pairs.len() > 0,
        parse(text) is Ok ==> parse(text)->Ok_0.records == records_of(pairs),
{
    lemma_slots_follow_tags(lines_of(text));
    lemma_slots_of_pairs(pairs);
}

} // verus!
