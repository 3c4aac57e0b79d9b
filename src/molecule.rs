use vstd::prelude::*;
use crate::length::{Length, at_least, is_nan, is_positive, order_key};
use crate::line::{LENGTH_FIELD, label_count, label_count_of, tab_field, tab_field_of};

verus! {

/// One molecule record: its backbone line and the companion lines seen for it.
/// An absent line is the empty string.
#[derive(Debug)]
pub struct Molecule {
    pub backbone: String,
    pub labels_basepair: String,
    pub labels_snr: String,
    pub labels_int: String,
}

/// The text of a molecule record.
pub struct MoleculeView {
    pub backbone: Seq<char>,
    pub basepair: Seq<char>,
    pub snr: Seq<char>,
    pub intensity: Seq<char>,
}

impl View for Molecule {
    type V = MoleculeView;

    open spec fn view(&self) -> MoleculeView {
        MoleculeView {
            backbone: self.backbone@,
            basepair: self.labels_basepair@,
            snr: self.labels_snr@,
            intensity: self.labels_int@,
        }
    }
}

/// The text of each string in turn.
pub open spec fn texts(v: Seq<String>) -> Seq<Seq<char>> {
    v.map_values(|s: String| s@)
}

/// The four lines written for a record, in fixed order; an absent line is
/// written empty.
pub open spec fn record_lines(m: MoleculeView) -> Seq<Seq<char>> {
    seq![m.backbone, m.basepair, m.snr, m.intensity]
}

/// The length that the filter uses: the one read, or zero where none was read
/// or what was read is a NaN.
pub open spec fn length_or_zero(length: Option<Length>) -> u64 {
    match length {
        Some(l) => if is_nan(l.bits) {
            0
        } else {
            l.bits
        },
        None => 0,
    }
}

/// Whether a record passes the thresholds. `length` is what the backbone's
/// length field reads as, `None` where it is missing or cannot be read as a
/// number; a NaN counts as zero, as a missing length does.
pub open spec fn accepts(
    m: MoleculeView,
    length: Option<Length>,
    min_length: Length,
    min_labels: i32,
) -> bool {
    at_least(length_or_zero(length), min_length.bits) && label_count_of(m.backbone) >= min_labels
}

impl Molecule {
    /// A record opened by a backbone line, with no companion lines yet.
    pub fn with_backbone(backbone: String) -> (r: Molecule)
        ensures
            r@.backbone == backbone@,
            r@.basepair == Seq::<char>::empty(),
            r@.snr == Seq::<char>::empty(),
            r@.intensity == Seq::<char>::empty(),
    {
        Molecule {
            backbone,
            labels_basepair: String::new(),
            labels_snr: String::new(),
            labels_int: String::new(),
        }
    }

    /// The text of the backbone's length field, if it has one.
    pub fn length_field(&self) -> (r: Option<String>)
        ensures
            r.is_some() == tab_field_of(self@.backbone, LENGTH_FIELD as int).is_some(),
            r.is_some() ==> r.unwrap()@ == tab_field_of(self@.backbone, LENGTH_FIELD as int).unwrap(),
    {
        tab_field(self.backbone.as_str(), LENGTH_FIELD)
    }
}

/// Whether a record passes: its length is at least `min_length` and its label
/// count at least `min_labels`, both bounds inclusive. A missing or NaN length
/// counts as zero, and so does a missing or unreadable label count.
pub fn filter_molecule(
    molecule: &Molecule,
    length: Option<Length>,
    min_length: Length,
    min_labels: i32,
) -> (r: bool)
    ensures
        r == accepts(molecule@, length, min_length, min_labels),
{
    let len = match length {
        Some(l) => if l.is_nan() {
            Length::zero()
        } else {
            l
        },
        None => Length::zero(),
    };
    len.at_least(&min_length) && label_count(molecule.backbone.as_str()) >= min_labels
}

/// Appends the four lines of a record to `out`.
pub fn write_molecule(out: &mut Vec<String>, molecule: &Molecule)
    ensures
        texts(final(out)@) == texts(old(out)@) + record_lines(molecule@),
{
    out.push(molecule.backbone.clone());
    out.push(molecule.labels_basepair.clone());
    out.push(molecule.labels_snr.clone());
    out.push(molecule.labels_int.clone());
    assert(texts(out@) =~= texts(old(out)@) + record_lines(molecule@));
}

/// Appends the lines of a finished record to `out` if it passes the thresholds.
pub fn emit_if_accepted(
    out: &mut Vec<String>,
    molecule: &Molecule,
    length: Option<Length>,
    min_length: Length,
    min_labels: i32,
)
    ensures
        accepts(molecule@, length, min_length, min_labels) ==> texts(final(out)@) == texts(old(out)@)
            + record_lines(molecule@),
        !accepts(molecule@, length, min_length, min_labels) ==> final(out)@ == old(out)@,
{
    if filter_molecule(molecule, length, min_length, min_labels) {
        write_molecule(out, molecule);
    }
}

/// The thresholds of the tool's built-in run: a length of one million
/// (the double 1000000.0) and fifteen labels.
pub fn process_bnx_file_with_constants() -> (r: (Length, i32))
    ensures
        r.0.bits == 0x412E_8480_0000_0000,
        !is_nan(r.0.bits),
        order_key(r.0.bits) > 0,
        r.1 == 15,
{
    (Length::from_bits(0x412E_8480_0000_0000), 15)
}

/// The bounds are inclusive: a record whose length equals `min_length` and
/// whose label count equals `min_labels` passes.
pub proof fn lemma_threshold_inclusive(m: MoleculeView, min_length: Length, min_labels: i32)
    requires
        !is_nan(min_length.bits),
        label_count_of(m.backbone) == min_labels,
    ensures
        accepts(m, Some(min_length), min_length, min_labels),
{
}

/// A NaN length counts as zero: such a record is judged as one with no
/// length read, and as one of length zero.
pub proof fn lemma_nan_length_is_zero(
    m: MoleculeView,
    length: Length,
    min_length: Length,
    min_labels: i32,
)
    requires
        is_nan(length.bits),
    ensures
        accepts(m, Some(length), min_length, min_labels) == accepts(m, None, min_length, min_labels),
        accepts(m, Some(length), min_length, min_labels) == accepts(
            m,
            Some(Length { bits: 0 }),
            min_length,
            min_labels,
        ),
{
}

/// A record whose length could not be read counts as length zero, so it is
/// left out whenever `min_length` is above zero, whatever its label count.
pub proof fn lemma_unread_length_excluded(m: MoleculeView, min_length: Length, min_labels: i32)
    requires
        is_positive(min_length.bits),
    ensures
        !accepts(m, None, min_length, min_labels),
{
}

} // verus!
