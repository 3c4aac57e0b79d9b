use vstd::prelude::*;
use crate::assembler::{Event, all_events, closing, events_of, open_after, render, step_events};
use crate::line::{LineKind, kind_of};
use crate::molecule::{MoleculeView, record_lines};

verus! {

/// The number of header lines among `lines`.
pub open spec fn count_headers(lines: Seq<Seq<char>>) -> nat
    decreases lines.len(),
{
    if lines.len() == 0 {
        0
    } else {
        count_headers(lines.drop_last()) + if kind_of(lines.last()) == LineKind::Header {
            1nat
        } else {
            0nat
        }
    }
}

/// The number of backbone lines among `lines`.
pub open spec fn count_backbones(lines: Seq<Seq<char>>) -> nat
    decreases lines.len(),
{
    if lines.len() == 0 {
        0
    } else {
        count_backbones(lines.drop_last()) + if kind_of(lines.last()) == LineKind::BackboneStart {
            1nat
        } else {
            0nat
        }
    }
}

/// The number of header events among `events`.
pub open spec fn header_events(events: Seq<Event>) -> nat
    decreases events.len(),
{
    if events.len() == 0 {
        0
    } else {
        header_events(events.drop_last()) + if events.last() is Header {
            1nat
        } else {
            0nat
        }
    }
}

/// The number of closed records among `events`.
pub open spec fn closed_events(events: Seq<Event>) -> nat
    decreases events.len(),
{
    if events.len() == 0 {
        0
    } else {
        closed_events(events.drop_last()) + if events.last() is Closed {
            1nat
        } else {
            0nat
        }
    }
}

/// None of a record's lines reads as a header.
pub open spec fn no_header_line(m: MoleculeView) -> bool {
    &&& kind_of(m.backbone) != LineKind::Header
    &&& kind_of(m.basepair) != LineKind::Header
    &&& kind_of(m.snr) != LineKind::Header
    &&& kind_of(m.intensity) != LineKind::Header
}

/// Each header event holds a header line, and no closed record holds one.
pub open spec fn records_without_headers(events: Seq<Event>) -> bool {
    forall|i: int|
        0 <= i < events.len() ==> match #[trigger] events[i] {
            Event::Header(h) => kind_of(h) == LineKind::Header,
            Event::Closed(m) => no_header_line(m),
        }
}

proof fn lemma_count_headers_add(a: Seq<Seq<char>>, b: Seq<Seq<char>>)
    ensures
        count_headers(a + b) == count_headers(a) + count_headers(b),
    decreases b.len(),
{
    if b.len() == 0 {
        assert(a + b == a);
    } else {
        lemma_count_headers_add(a, b.drop_last());
        assert((a + b).drop_last() == a + b.drop_last());
    }
}

proof fn lemma_event_counts_add(a: Seq<Event>, b: Seq<Event>)
    ensures
        header_events(a + b) == header_events(a) + header_events(b),
        closed_events(a + b) == closed_events(a) + closed_events(b),
    decreases b.len(),
{
    if b.len() == 0 {
        assert(a + b == a);
    } else {
        lemma_event_counts_add(a, b.drop_last());
        assert((a + b).drop_last() == a + b.drop_last());
    }
}

proof fn lemma_open_record_has_no_header(lines: Seq<Seq<char>>)
    ensures
        no_header_line(open_after(lines)),
        open_after(lines).backbone.len() > 0 <==> count_backbones(lines) > 0,
    decreases lines.len(),
{
    if lines.len() > 0 {
        lemma_open_record_has_no_header(lines.drop_last());
    }
}

proof fn lemma_events_count(lines: Seq<Seq<char>>)
    ensures
        header_events(events_of(lines)) == count_headers(lines),
        closed_events(events_of(lines)) + (if count_backbones(lines) > 0 {
            1nat
        } else {
            0nat
        }) == count_backbones(lines),
        records_without_headers(events_of(lines)),
    decreases lines.len(),
{
    if lines.len() > 0 {
        let prev = lines.drop_last();
        lemma_events_count(prev);
        lemma_open_record_has_no_header(prev);
        let step = step_events(open_after(prev), lines.last());
        lemma_event_counts_add(events_of(prev), step);
        assert(header_events(step) == if kind_of(lines.last()) == LineKind::Header {
            1nat
        } else {
            0nat
        }) by {
            reveal_with_fuel(header_events, 2);
        }
        assert(closed_events(step) == if kind_of(lines.last()) == LineKind::BackboneStart
            && count_backbones(prev) > 0 {
            1nat
        } else {
            0nat
        }) by {
            reveal_with_fuel(closed_events, 2);
        }
        let all = events_of(prev) + step;
        assert forall|i: int| 0 <= i < all.len() implies match #[trigger] all[i] {
            Event::Header(h) => kind_of(h) == LineKind::Header,
            Event::Closed(m) => no_header_line(m),
        } by {
            if i >= events_of(prev).len() {
                assert(all[i] == step[i - events_of(prev).len()]);
            }
        }
    }
}

proof fn lemma_render_headers(events: Seq<Event>, accept: spec_fn(MoleculeView) -> bool)
    requires
        records_without_headers(events),
    ensures
        count_headers(render(events, accept)) == header_events(events),
    decreases events.len(),
{
    if events.len() > 0 {
        let prev = events.drop_last();
        assert(records_without_headers(prev)) by {
            assert forall|i: int| 0 <= i < prev.len() implies match #[trigger] prev[i] {
                Event::Header(h) => kind_of(h) == LineKind::Header,
                Event::Closed(m) => no_header_line(m),
            } by {
                assert(prev[i] == events[i]);
            }
        }
        lemma_render_headers(prev, accept);
        let tail = match events.last() {
            Event::Header(h) => seq![h],
            Event::Closed(m) => if accept(m) {
                record_lines(m)
            } else {
                seq![]
            },
        };
        lemma_count_headers_add(render(prev, accept), tail);
        assert(events.last() == events[events.len() - 1]);
        match events.last() {
            Event::Header(h) => {
                reveal_with_fuel(count_headers, 2);
                assert(seq![h].drop_last() =~= Seq::<Seq<char>>::empty());
            },
            Event::Closed(m) => {
                if accept(m) {
                    let r = record_lines(m);
                    reveal_with_fuel(count_headers, 5);
                    assert(r.drop_last().drop_last().drop_last().drop_last() =~= Seq::<
                        Seq<char>,
                    >::empty());
                } else {
                    assert(count_headers(seq![]) == 0);
                }
            },
        }
    }
}

proof fn lemma_all_events_well_kinded(lines: Seq<Seq<char>>)
    ensures
        records_without_headers(all_events(lines)),
        header_events(all_events(lines)) == count_headers(lines),
        closed_events(all_events(lines)) == count_backbones(lines),
{
    let evs = events_of(lines);
    let tail = closing(open_after(lines));
    lemma_events_count(lines);
    lemma_open_record_has_no_header(lines);
    lemma_event_counts_add(evs, tail);
    reveal_with_fuel(header_events, 2);
    reveal_with_fuel(closed_events, 2);
    let all = evs + tail;
    assert forall|i: int| 0 <= i < all.len() implies match #[trigger] all[i] {
        Event::Header(h) => kind_of(h) == LineKind::Header,
        Event::Closed(m) => no_header_line(m),
    } by {
        if i >= evs.len() {
            assert(all[i] == tail[i - evs.len()]);
        }
    }
}

/// Framing: header lines pass through, all of them and nothing else as a
/// header, whichever records pass; and every backbone line yields exactly one
/// closed record, the last one closed by the end of input.
pub proof fn lemma_framing(lines: Seq<Seq<char>>, accept: spec_fn(MoleculeView) -> bool)
    ensures
        count_headers(render(all_events(lines), accept)) == count_headers(lines),
        closed_events(all_events(lines)) == count_backbones(lines),
{
    lemma_all_events_well_kinded(lines);
    lemma_render_headers(all_events(lines), accept);
}

/// Four well-formed lines at the end of an input: they open and fill one
/// record, and hand on only the record that was open before them.
proof fn lemma_record_step(lines: Seq<Seq<char>>, b: Seq<char>, p: Seq<char>, s: Seq<char>, i: Seq<char>)
    requires
        kind_of(b) == LineKind::BackboneStart,
        kind_of(p) == LineKind::BasepairLabels,
        kind_of(s) == LineKind::SnrLabels,
        kind_of(i) == LineKind::IntensityLabels,
    ensures
        open_after(lines + seq![b, p, s, i]) == (MoleculeView {
            backbone: b,
            basepair: p,
            snr: s,
            intensity: i,
        }),
        events_of(lines + seq![b, p, s, i]) == events_of(lines) + closing(open_after(lines)),
{
    let l1 = lines.push(b);
    let l2 = l1.push(p);
    let l3 = l2.push(s);
    let whole = l3.push(i);
    assert(whole == lines + seq![b, p, s, i]);
    assert(l1.drop_last() == lines);
    assert(l2.drop_last() == l1);
    assert(l3.drop_last() == l2);
    assert(whole.drop_last() == l3);
    assert(b.len() > 0);
    assert(open_after(l1) == MoleculeView {
        backbone: b,
        basepair: Seq::empty(),
        snr: Seq::empty(),
        intensity: Seq::empty(),
    });
    assert(open_after(l2) == MoleculeView {
        backbone: b,
        basepair: p,
        snr: Seq::empty(),
        intensity: Seq::empty(),
    });
    assert(open_after(l3) == MoleculeView { backbone: b, basepair: p, snr: s, intensity: Seq::empty() });
    assert(events_of(l1) == events_of(lines) + closing(open_after(lines)));
    assert(events_of(l2) =~= events_of(l1));
    assert(events_of(l3) =~= events_of(l2));
    assert(events_of(whole) =~= events_of(l3));
}

/// A record read as four well-formed lines (backbone, basepair, SNR and
/// intensity lines, in that order) at the end of an input is handed on
/// exactly: the events are those of the input before it, then that record,
/// which renders as those four lines in that order where it passes.
pub proof fn lemma_four_line_record(
    lines: Seq<Seq<char>>,
    b: Seq<char>,
    p: Seq<char>,
    s: Seq<char>,
    i: Seq<char>,
    accept: spec_fn(MoleculeView) -> bool,
)
    requires
        kind_of(b) == LineKind::BackboneStart,
        kind_of(p) == LineKind::BasepairLabels,
        kind_of(s) == LineKind::SnrLabels,
        kind_of(i) == LineKind::IntensityLabels,
    ensures
        ({
            let m = MoleculeView { backbone: b, basepair: p, snr: s, intensity: i };
            let whole = lines + seq![b, p, s, i];
            &&& open_after(whole) == m
            &&& all_events(whole) == all_events(lines) + seq![Event::Closed(m)]
            &&& accept(m) ==> render(all_events(whole), accept) == render(all_events(lines), accept)
                + seq![b, p, s, i]
        }),
{
    let m = MoleculeView { backbone: b, basepair: p, snr: s, intensity: i };
    let whole = lines + seq![b, p, s, i];
    lemma_record_step(lines, b, p, s, i);
    assert(b.len() > 0);
    assert(all_events(whole) =~= all_events(lines) + seq![Event::Closed(m)]);
    let evs = all_events(whole);
    assert(evs.drop_last() == all_events(lines));
    if accept(m) {
        assert(render(evs, accept) == render(all_events(lines), accept) + record_lines(m));
    }
}

/// The last record is flushed: an input that ends right after a backbone
/// line hands that record on last, with its companion lines empty, and where
/// it passes the output ends with the backbone line and three empty lines.
pub proof fn lemma_last_record_flushed(
    lines: Seq<Seq<char>>,
    b: Seq<char>,
    accept: spec_fn(MoleculeView) -> bool,
)
    requires
        kind_of(b) == LineKind::BackboneStart,
    ensures
        ({
            let m = MoleculeView {
                backbone: b,
                basepair: Seq::empty(),
                snr: Seq::empty(),
                intensity: Seq::empty(),
            };
            let out = render(all_events(lines.push(b)), accept);
            &&& all_events(lines.push(b)).last() == Event::Closed(m)
            &&& accept(m) ==> out.len() >= 4 && out.subrange(out.len() - 4, out.len() as int)
                == seq![b, Seq::<char>::empty(), Seq::<char>::empty(), Seq::<char>::empty()]
        }),
{
    let m = MoleculeView {
        backbone: b,
        basepair: Seq::empty(),
        snr: Seq::empty(),
        intensity: Seq::empty(),
    };
    let whole = lines.push(b);
    assert(whole.drop_last() == lines);
    assert(open_after(whole) == m);
    let evs = all_events(whole);
    assert(evs == events_of(whole) + seq![Event::Closed(m)]);
    assert(evs.last() == Event::Closed(m));
    assert(evs.drop_last() =~= events_of(whole));
    if accept(m) {
        let out = render(evs, accept);
        assert(out == render(events_of(whole), accept) + record_lines(m));
        assert(out.subrange(out.len() - 4, out.len() as int) =~= record_lines(m));
    }
}

/// Lines that are neither backbone nor SNR lines leave the open record's
/// backbone and SNR line as they were.
proof fn lemma_other_lines_keep_snr(lines: Seq<Seq<char>>, tail: Seq<Seq<char>>)
    requires
        forall|k: int|
            0 <= k < tail.len() ==> kind_of(#[trigger] tail[k]) != LineKind::BackboneStart
                && kind_of(tail[k]) != LineKind::SnrLabels,
    ensures
        open_after(lines + tail).snr == open_after(lines).snr,
        open_after(lines + tail).backbone == open_after(lines).backbone,
    decreases tail.len(),
{
    if tail.len() == 0 {
        assert(lines + tail == lines);
    } else {
        lemma_other_lines_keep_snr(lines, tail.drop_last());
        assert((lines + tail).drop_last() == lines + tail.drop_last());
        assert(tail.last() == tail[tail.len() - 1]);
    }
}

/// Lines that are not backbone lines keep the open record's backbone.
proof fn lemma_other_lines_keep_backbone(lines: Seq<Seq<char>>, mid: Seq<Seq<char>>)
    requires
        forall|k: int| 0 <= k < mid.len() ==> kind_of(#[trigger] mid[k]) != LineKind::BackboneStart,
    ensures
        open_after(lines + mid).backbone == open_after(lines).backbone,
    decreases mid.len(),
{
    if mid.len() == 0 {
        assert(lines + mid == lines);
    } else {
        lemma_other_lines_keep_backbone(lines, mid.drop_last());
        assert((lines + mid).drop_last() == lines + mid.drop_last());
        assert(mid.last() == mid[mid.len() - 1]);
    }
}

/// A later SNR line replaces an earlier one: where two SNR lines `q1` and
/// `q2` stand in one record (no backbone line between them), the record keeps
/// `q2` alone, also after further lines that are neither backbone nor SNR lines.
pub proof fn lemma_later_snr_line_wins(
    lines: Seq<Seq<char>>,
    q1: Seq<char>,
    mid: Seq<Seq<char>>,
    q2: Seq<char>,
    tail: Seq<Seq<char>>,
)
    requires
        kind_of(q1) == LineKind::SnrLabels,
        kind_of(q2) == LineKind::SnrLabels,
        forall|k: int| 0 <= k < mid.len() ==> kind_of(#[trigger] mid[k]) != LineKind::BackboneStart,
        forall|k: int|
            0 <= k < tail.len() ==> kind_of(#[trigger] tail[k]) != LineKind::BackboneStart
                && kind_of(tail[k]) != LineKind::SnrLabels,
    ensures
        open_after((lines.push(q1) + mid).push(q2) + tail).snr == q2,
        open_after((lines.push(q1) + mid).push(q2) + tail).backbone == open_after(
            lines.push(q1),
        ).backbone,
{
    let before = (lines.push(q1) + mid).push(q2);
    assert(before.drop_last() == lines.push(q1) + mid);
    lemma_other_lines_keep_backbone(lines.push(q1), mid);
    lemma_other_lines_keep_snr(before, tail);
}


/// The lines of a sequence of blocks, one block after another.
pub open spec fn join_blocks(blocks: Seq<Seq<Seq<char>>>) -> Seq<Seq<char>>
    decreases blocks.len(),
{
    if blocks.len() == 0 {
        seq![]
    } else {
        join_blocks(blocks.drop_last()) + blocks.last()
    }
}

/// A block of one header line.
pub open spec fn is_header_block(block: Seq<Seq<char>>) -> bool {
    block.len() == 1 && kind_of(block[0]) == LineKind::Header
}

/// A well-formed record: a backbone, a basepair, an SNR and an intensity
/// line, in that order.
pub open spec fn is_record_block(block: Seq<Seq<char>>) -> bool {
    &&& block.len() == 4
    &&& kind_of(block[0]) == LineKind::BackboneStart
    &&& kind_of(block[1]) == LineKind::BasepairLabels
    &&& kind_of(block[2]) == LineKind::SnrLabels
    &&& kind_of(block[3]) == LineKind::IntensityLabels
}

pub open spec fn block_record(block: Seq<Seq<char>>) -> MoleculeView {
    MoleculeView { backbone: block[0], basepair: block[1], snr: block[2], intensity: block[3] }
}

/// The records among a sequence of blocks, in order.
pub open spec fn records_of(blocks: Seq<Seq<Seq<char>>>) -> Seq<MoleculeView>
    decreases blocks.len(),
{
    if blocks.len() == 0 {
        seq![]
    } else {
        records_of(blocks.drop_last()) + if is_record_block(blocks.last()) {
            seq![block_record(blocks.last())]
        } else {
            seq![]
        }
    }
}

/// The closed records among `events`, in order.
pub open spec fn closed_records(events: Seq<Event>) -> Seq<MoleculeView>
    decreases events.len(),
{
    if events.len() == 0 {
        seq![]
    } else {
        closed_records(events.drop_last()) + match events.last() {
            Event::Closed(m) => seq![m],
            Event::Header(_) => seq![],
        }
    }
}

/// The lines of `lines` that are not header lines, in order.
pub open spec fn without_headers(lines: Seq<Seq<char>>) -> Seq<Seq<char>>
    decreases lines.len(),
{
    if lines.len() == 0 {
        seq![]
    } else {
        without_headers(lines.drop_last()) + if kind_of(lines.last()) == LineKind::Header {
            seq![]
        } else {
            seq![lines.last()]
        }
    }
}

/// The four-line blocks of the records that pass, in order.
pub open spec fn accepted_blocks(
    records: Seq<MoleculeView>,
    accept: spec_fn(MoleculeView) -> bool,
) -> Seq<Seq<char>>
    decreases records.len(),
{
    if records.len() == 0 {
        seq![]
    } else {
        accepted_blocks(records.drop_last(), accept) + if accept(records.last()) {
            record_lines(records.last())
        } else {
            seq![]
        }
    }
}

proof fn lemma_closed_records_add(a: Seq<Event>, b: Seq<Event>)
    ensures
        closed_records(a + b) == closed_records(a) + closed_records(b),
    decreases b.len(),
{
    if b.len() == 0 {
        assert(a + b == a);
        assert(closed_records(a) + closed_records(b) =~= closed_records(a));
    } else {
        lemma_closed_records_add(a, b.drop_last());
        assert((a + b).drop_last() == a + b.drop_last());
        assert(closed_records(a + b) =~= closed_records(a) + closed_records(b));
    }
}

proof fn lemma_without_headers_add(a: Seq<Seq<char>>, b: Seq<Seq<char>>)
    ensures
        without_headers(a + b) == without_headers(a) + without_headers(b),
    decreases b.len(),
{
    if b.len() == 0 {
        assert(a + b == a);
        assert(without_headers(a) + without_headers(b) =~= without_headers(a));
    } else {
        lemma_without_headers_add(a, b.drop_last());
        assert((a + b).drop_last() == a + b.drop_last());
        assert(without_headers(a + b) =~= without_headers(a) + without_headers(b));
    }
}

proof fn lemma_render_without_headers(events: Seq<Event>, accept: spec_fn(MoleculeView) -> bool)
    requires
        records_without_headers(events),
    ensures
        without_headers(render(events, accept)) == accepted_blocks(closed_records(events), accept),
    decreases events.len(),
{
    if events.len() > 0 {
        let prev = events.drop_last();
        assert(records_without_headers(prev)) by {
            assert forall|i: int| 0 <= i < prev.len() implies match #[trigger] prev[i] {
                Event::Header(h) => kind_of(h) == LineKind::Header,
                Event::Closed(m) => no_header_line(m),
            } by {
                assert(prev[i] == events[i]);
            }
        }
        lemma_render_without_headers(prev, accept);
        let tail = match events.last() {
            Event::Header(h) => seq![h],
            Event::Closed(m) => if accept(m) {
                record_lines(m)
            } else {
                seq![]
            },
        };
        lemma_without_headers_add(render(prev, accept), tail);
        assert(events.last() == events[events.len() - 1]);
        match events.last() {
            Event::Header(h) => {
                reveal_with_fuel(without_headers, 2);
                assert(seq![h].drop_last() =~= Seq::<Seq<char>>::empty());
                assert(closed_records(events) =~= closed_records(prev));
            },
            Event::Closed(m) => {
                let recs = closed_records(events);
                assert(recs == closed_records(prev).push(m));
                assert(recs.drop_last() =~= closed_records(prev));
                if accept(m) {
                    let r = record_lines(m);
                    reveal_with_fuel(without_headers, 5);
                    assert(r.drop_last().drop_last().drop_last().drop_last() =~= Seq::<
                        Seq<char>,
                    >::empty());
                    assert(without_headers(r) =~= r);
                } else {
                    assert(without_headers(seq![]) =~= Seq::<Seq<char>>::empty());
                }
            },
        }
    }
}

proof fn lemma_blocks_state(blocks: Seq<Seq<Seq<char>>>)
    requires
        forall|k: int|
            0 <= k < blocks.len() ==> is_header_block(#[trigger] blocks[k]) || is_record_block(
                blocks[k],
            ),
    ensures
        records_of(blocks).len() == 0 ==> open_after(join_blocks(blocks)).backbone.len() == 0
            && closed_records(events_of(join_blocks(blocks))) == Seq::<MoleculeView>::empty(),
        records_of(blocks).len() > 0 ==> open_after(join_blocks(blocks)) == records_of(blocks).last()
            && closed_records(events_of(join_blocks(blocks))) == records_of(blocks).drop_last(),
    decreases blocks.len(),
{
    if blocks.len() > 0 {
        let prev = blocks.drop_last();
        let blk = blocks.last();
        assert(blk == blocks[blocks.len() - 1]);
        assert forall|k: int| 0 <= k < prev.len() implies is_header_block(#[trigger] prev[k])
            || is_record_block(prev[k]) by {
            assert(prev[k] == blocks[k]);
        }
        lemma_blocks_state(prev);
        let jp = join_blocks(prev);
        let j = join_blocks(blocks);
        let rp = records_of(prev);
        if is_header_block(blk) {
            let h = blk[0];
            assert(j == jp.push(h)) by {
                assert(blk =~= seq![h]);
            }
            assert(j.drop_last() == jp);
            lemma_closed_records_add(events_of(jp), seq![Event::Header(h)]);
            reveal_with_fuel(closed_records, 2);
            assert(seq![Event::Header(h)].drop_last() =~= Seq::<Event>::empty());
            assert(closed_records(seq![Event::Header(h)]) =~= Seq::<MoleculeView>::empty());
            assert(records_of(blocks) =~= rp);
        } else {
            let m = block_record(blk);
            assert(blk =~= seq![blk[0], blk[1], blk[2], blk[3]]);
            lemma_record_step(jp, blk[0], blk[1], blk[2], blk[3]);
            lemma_closed_records_add(events_of(jp), closing(open_after(jp)));
            assert(records_of(blocks) == rp.push(m));
            assert(records_of(blocks).drop_last() =~= rp);
            if rp.len() == 0 {
                assert(closing(open_after(jp)) =~= Seq::<Event>::empty());
                assert(closed_records(Seq::<Event>::empty()) =~= Seq::<MoleculeView>::empty());
                assert(closed_records(events_of(j)) =~= rp);
            } else {
                let last = rp.last();
                assert(kind_of(last.backbone) == LineKind::BackboneStart) by {
                    lemma_records_open_with_backbones(prev);
                    assert(last == rp[rp.len() - 1]);
                }
                assert(closing(open_after(jp)) == seq![Event::Closed(last)]);
                reveal_with_fuel(closed_records, 2);
                assert(closed_records(seq![Event::Closed(last)]) =~= seq![last]);
                assert(closed_records(events_of(j)) =~= rp.drop_last().push(last));
                assert(rp.drop_last().push(last) =~= rp);
            }
        }
    }
}

/// Framing of a whole input made of header lines and well-formed four-line
/// records: the records closed are exactly the input's records, in order, and
/// the output without its header lines is exactly the four-line blocks of the
/// records that pass, each in backbone, basepair, SNR, intensity order, in
/// input order.
pub proof fn lemma_block_framing(blocks: Seq<Seq<Seq<char>>>, accept: spec_fn(MoleculeView) -> bool)
    requires
        forall|k: int|
            0 <= k < blocks.len() ==> is_header_block(#[trigger] blocks[k]) || is_record_block(
                blocks[k],
            ),
    ensures
        closed_records(all_events(join_blocks(blocks))) == records_of(blocks),
        without_headers(render(all_events(join_blocks(blocks)), accept)) == accepted_blocks(
            records_of(blocks),
            accept,
        ),
{
    let j = join_blocks(blocks);
    let recs = records_of(blocks);
    lemma_blocks_state(blocks);
    lemma_closed_records_add(events_of(j), closing(open_after(j)));
    if recs.len() == 0 {
        assert(closing(open_after(j)) =~= Seq::<Event>::empty());
        assert(closed_records(Seq::<Event>::empty()) =~= Seq::<MoleculeView>::empty());
        assert(closed_records(all_events(j)) =~= recs);
    } else {
        let last = recs.last();
        assert(last.backbone.len() > 0) by {
            lemma_records_open_with_backbones(blocks);
            assert(last == recs[recs.len() - 1]);
        }
        assert(closing(open_after(j)) == seq![Event::Closed(last)]);
        reveal_with_fuel(closed_records, 2);
        assert(closed_records(seq![Event::Closed(last)]) =~= seq![last]);
        assert(closed_records(all_events(j)) =~= recs.drop_last().push(last));
        assert(recs.drop_last().push(last) =~= recs);
    }
    lemma_all_events_well_kinded(j);
    lemma_render_without_headers(all_events(j), accept);
}

proof fn lemma_records_open_with_backbones(blocks: Seq<Seq<Seq<char>>>)
    ensures
        forall|k: int|
            0 <= k < records_of(blocks).len() ==> kind_of(#[trigger] records_of(blocks)[k].backbone)
                == LineKind::BackboneStart,
    decreases blocks.len(),
{
    if blocks.len() > 0 {
        lemma_records_open_with_backbones(blocks.drop_last());
        let rp = records_of(blocks.drop_last());
        assert forall|k: int| 0 <= k < records_of(blocks).len() implies kind_of(
            #[trigger] records_of(blocks)[k].backbone,
        ) == LineKind::BackboneStart by {
            if k < rp.len() {
                assert(records_of(blocks)[k] == rp[k]);
            }
        }
    }
}

} // verus!
