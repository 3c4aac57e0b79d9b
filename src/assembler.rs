use vstd::prelude::*;
use crate::line::{LineKind, classify, kind_of};
use crate::molecule::{Molecule, MoleculeView, record_lines, texts};

verus! {

/// What a run hands on, in input order: a header line, or a record that a
/// later backbone line or the end of input has closed.
pub enum Event {
    Header(Seq<char>),
    Closed(MoleculeView),
}

/// The record open before the first backbone line: all lines empty.
pub open spec fn empty_molecule() -> MoleculeView {
    MoleculeView {
        backbone: Seq::empty(),
        basepair: Seq::empty(),
        snr: Seq::empty(),
        intensity: Seq::empty(),
    }
}

/// The open record after one more line: a backbone line opens a fresh record;
/// a companion line replaces the record's line of its kind; any other line
/// leaves it as it was.
pub open spec fn next_state(cur: MoleculeView, line: Seq<char>) -> MoleculeView {
    match kind_of(line) {
        LineKind::BackboneStart => MoleculeView {
            backbone: line,
            basepair: Seq::empty(),
            snr: Seq::empty(),
            intensity: Seq::empty(),
        },
        LineKind::BasepairLabels => MoleculeView {
            backbone: cur.backbone,
            basepair: line,
            snr: cur.snr,
            intensity: cur.intensity,
        },
        LineKind::SnrLabels => MoleculeView {
            backbone: cur.backbone,
            basepair: cur.basepair,
            snr: line,
            intensity: cur.intensity,
        },
        LineKind::IntensityLabels => MoleculeView {
            backbone: cur.backbone,
            basepair: cur.basepair,
            snr: cur.snr,
            intensity: line,
        },
        _ => cur,
    }
}

/// Closing a record hands it on only where it has a backbone.
pub open spec fn closing(m: MoleculeView) -> Seq<Event> {
    if m.backbone.len() > 0 {
        seq![Event::Closed(m)]
    } else {
        seq![]
    }
}

/// What one more line hands on: a header line itself, and for a backbone line
/// the record that it closes.
pub open spec fn step_events(cur: MoleculeView, line: Seq<char>) -> Seq<Event> {
    match kind_of(line) {
        LineKind::Header => seq![Event::Header(line)],
        LineKind::BackboneStart => closing(cur),
        _ => seq![],
    }
}

/// The record open after a sequence of lines.
pub open spec fn open_after(lines: Seq<Seq<char>>) -> MoleculeView
    decreases lines.len(),
{
    if lines.len() == 0 {
        empty_molecule()
    } else {
        next_state(open_after(lines.drop_last()), lines.last())
    }
}

/// What a sequence of lines hands on before the input ends.
pub open spec fn events_of(lines: Seq<Seq<char>>) -> Seq<Event>
    decreases lines.len(),
{
    if lines.len() == 0 {
        seq![]
    } else {
        events_of(lines.drop_last()) + step_events(open_after(lines.drop_last()), lines.last())
    }
}

/// What a whole input hands on: the end of input closes the open record.
pub open spec fn all_events(lines: Seq<Seq<char>>) -> Seq<Event> {
    events_of(lines) + closing(open_after(lines))
}

/// The output lines for a sequence of events, where `accept` says which
/// records pass: a header as it is, a passing record as its four lines.
pub open spec fn render(events: Seq<Event>, accept: spec_fn(MoleculeView) -> bool) -> Seq<Seq<char>>
    decreases events.len(),
{
    if events.len() == 0 {
        seq![]
    } else {
        render(events.drop_last(), accept) + match events.last() {
            Event::Header(h) => seq![h],
            Event::Closed(m) => if accept(m) {
                record_lines(m)
            } else {
                seq![]
            },
        }
    }
}

/// The result of feeding one line.
#[derive(Debug)]
pub enum Step {
    /// Nothing to hand on.
    Nothing,
    /// A header line, to be written out at once.
    Header(String),
    /// A record that the line closed, to be filtered.
    Closed(Molecule),
}

pub open spec fn step_view(s: Step) -> Seq<Event> {
    match s {
        Step::Nothing => seq![],
        Step::Header(h) => seq![Event::Header(h@)],
        Step::Closed(m) => seq![Event::Closed(m@)],
    }
}

/// The streaming record assembler: it holds the one open record.
pub struct Assembler {
    current: Molecule,
}

impl View for Assembler {
    type V = MoleculeView;

    closed spec fn view(&self) -> MoleculeView {
        self.current@
    }
}

impl Assembler {
    /// An assembler before any line.
    pub fn new() -> (r: Assembler)
        ensures
            r@ == empty_molecule(),
    {
        Assembler { current: Molecule::with_backbone(String::new()) }
    }

    /// Takes the next line of input.
    pub fn feed(&mut self, line: String) -> (r: Step)
        ensures
            final(self)@ == next_state(old(self)@, line@),
            step_view(r) == step_events(old(self)@, line@),
    {
        match classify(line.as_str()) {
            LineKind::Header => Step::Header(line),
            LineKind::BackboneStart => {
                let mut done = Molecule::with_backbone(line);
                std::mem::swap(&mut self.current, &mut done);
                if done.backbone.as_str().is_empty() {
                    Step::Nothing
                } else {
                    Step::Closed(done)
                }
            },
            LineKind::BasepairLabels => {
                self.current.labels_basepair = line;
                Step::Nothing
            },
            LineKind::SnrLabels => {
                self.current.labels_snr = line;
                Step::Nothing
            },
            LineKind::IntensityLabels => {
                self.current.labels_int = line;
                Step::Nothing
            },
            LineKind::Unrecognized => Step::Nothing,
        }
    }

    /// Ends the input: hands on the open record if it has a backbone.
    pub fn finish(self) -> (r: Option<Molecule>)
        ensures
            r.is_some() == (self@.backbone.len() > 0),
            r.is_some() ==> r.unwrap()@ == self@,
    {
        if self.current.backbone.as_str().is_empty() {
            None
        } else {
            Some(self.current)
        }
    }
}


/// The events of a sequence of steps, in order.
pub open spec fn steps_view(steps: Seq<Step>) -> Seq<Event>
    decreases steps.len(),
{
    if steps.len() == 0 {
        seq![]
    } else {
        steps_view(steps.drop_last()) + step_view(steps.last())
    }
}

/// Runs the assembler over a whole input: the headers and closed records, in
/// order, the last record closed by the end of input.
pub fn assemble(lines: &Vec<String>) -> (r: Vec<Step>)
    ensures
        steps_view(r@) == all_events(texts(lines@)),
        forall|i: int| 0 <= i < r@.len() ==> !(#[trigger] r@[i] is Nothing),
{
    let ghost t = texts(lines@);
    let mut out: Vec<Step> = Vec::new();
    let mut assembler = Assembler::new();
    let mut i: usize = 0;
    proof {
        assert(t.take(0) =~= Seq::<Seq<char>>::empty());
    }
    while i < lines.len()
        invariant
            t == texts(lines@),
            i <= lines.len(),
            assembler@ == open_after(t.take(i as int)),
            steps_view(out@) == events_of(t.take(i as int)),
            forall|k: int| 0 <= k < out@.len() ==> !(#[trigger] out@[k] is Nothing),
        decreases lines.len() - i,
    {
        let ghost before = out@;
        proof {
            assert(t.take(i + 1).drop_last() == t.take(i as int));
            assert(t.take(i + 1).last() == lines@[i as int]@);
        }
        let step = assembler.feed(lines[i].clone());
        match step {
            Step::Nothing => {},
            _ => {
                out.push(step);
                proof {
                    assert(out@.drop_last() == before);
                }
            },
        }
        i = i + 1;
    }
    proof {
        assert(t.take(i as int) == t);
    }
    if let Some(m) = assembler.finish() {
        let ghost before = out@;
        out.push(Step::Closed(m));
        proof {
            assert(out@.drop_last() == before);
        }
    }
    out
}

} // verus!
