//! The record builder: folds an ordered list of matches into a fixed-shape
//! hardware-description record, and the fixed extraction drivers that the
//! surrounding collectors use on already-decoded report text.

use crate::pattern::Pattern;
use crate::pattern::pattern_valid;
use crate::pattern::regex_capture_all;
use crate::superxtractor::Match;
use crate::superxtractor::PatternCompileError;
use crate::superxtractor::SuperXtractor;
use crate::superxtractor::extract_all;
use crate::superxtractor::extract_lines_spec;
use crate::superxtractor::registry_of;
use crate::superxtractor::split_lines_spec;
use vstd::prelude::*;
use vstd::string::*;

verus! {

/// A fixed-shape record of hardware fields, each defaulting to the empty
/// string when no match supplies it.
#[derive(Debug)]
pub struct HwInfo {
    model: String,
    hw_uuid: String,
    chip: String,
}

/// The mathematical shape of a `HwInfo`.
pub ghost struct HwInfoView {
    pub model: Seq<char>,
    pub hw_uuid: Seq<char>,
    pub chip: Seq<char>,
}

impl View for HwInfo {
    type V = HwInfoView;

    closed spec fn view(&self) -> HwInfoView {
        HwInfoView { model: self.model@, hw_uuid: self.hw_uuid@, chip: self.chip@ }
    }
}

/// The all-defaults record: every field the empty string.
pub open spec fn record_default() -> HwInfoView {
    HwInfoView {
        model: Seq::<char>::empty(),
        hw_uuid: Seq::<char>::empty(),
        chip: Seq::<char>::empty(),
    }
}

/// One fold step: a match under a known field name overwrites that field;
/// a match under any other name is discarded without effect.
pub open spec fn record_update(r: HwInfoView, m: (Seq<char>, Seq<char>)) -> HwInfoView {
    if m.0 == "model"@ {
        HwInfoView { model: m.1, hw_uuid: r.hw_uuid, chip: r.chip }
    } else if m.0 == "hw_uuid"@ {
        HwInfoView { model: r.model, hw_uuid: m.1, chip: r.chip }
    } else if m.0 == "chip"@ {
        HwInfoView { model: r.model, hw_uuid: r.hw_uuid, chip: m.1 }
    } else {
        r
    }
}

/// The record that a match sequence folds to, left to right: the last
/// occurrence of a known field wins, all other fields keep their default.
pub open spec fn record_of(ms: Seq<(Seq<char>, Seq<char>)>) -> HwInfoView
    decreases ms.len(),
{
    if ms.len() == 0 {
        record_default()
    } else {
        record_update(record_of(ms.drop_last()), ms.last())
    }
}

/// Law: an empty match sequence folds to the all-defaults record, every
/// field equal to its declared default, the empty string.
pub proof fn lemma_record_of_empty()
    ensures
        record_of(Seq::<(Seq<char>, Seq<char>)>::empty()) == record_default(),
{
}

/// Law: folding a match sequence is repeatable — the fold keeps no hidden
/// state, so any two records built from the same match sequence are equal.
pub proof fn lemma_record_of_repeatable(
    ms: Seq<(Seq<char>, Seq<char>)>,
    r1: HwInfoView,
    r2: HwInfoView,
)
    requires
        r1 == record_of(ms),
        r2 == record_of(ms),
    ensures
        r1 == r2,
{
}

impl HwInfo {
    /// Folds the matches into a record, left to right: known fields are
    /// overwritten by their captured text (last occurrence wins), unknown
    /// fields are discarded. Always yields a record.
    pub fn new(from: Vec<Match>) -> (r: Option<HwInfo>)
        ensures
            r is Some,
            r matches Some(h) ==> h@ == record_of(from.deep_view()),
    {
        let ghost mv = from.deep_view();
        let key_model = String::from_str("model");
        let key_hw_uuid = String::from_str("hw_uuid");
        let key_chip = String::from_str("chip");
        let mut out = HwInfo { model: String::new(), hw_uuid: String::new(), chip: String::new() };
        let n: usize = from.len();
        let mut i: usize = 0;
        proof {
            assert(mv.take(0) =~= Seq::<(Seq<char>, Seq<char>)>::empty());
        }
        while i < n
            invariant
                i <= n,
                n == from.len(),
                mv == from.deep_view(),
                mv.len() == n as int,
                key_model@ == "model"@,
                key_hw_uuid@ == "hw_uuid"@,
                key_chip@ == "chip"@,
                out@ == record_of(mv.take(i as int)),
            decreases n - i,
        {
            proof {
                assert(mv.take(i + 1).drop_last() =~= mv.take(i as int));
                assert(mv.take(i + 1).last() == mv[i as int]);
                assert(mv[i as int] == from@[i as int]@);
            }
            let m = &from[i];
            if m.field == key_model {
                out.model = m.text.clone();
            } else if m.field == key_hw_uuid {
                out.hw_uuid = m.text.clone();
            } else if m.field == key_chip {
                out.chip = m.text.clone();
            }
            i = i + 1;
        }
        proof {
            assert(mv.take(n as int) =~= mv);
        }
        Some(out)
    }

    /// The model name field.
    pub fn model(&self) -> (r: &String)
        ensures
            r@ == self@.model,
    {
        &self.model
    }

    /// The hardware identifier field.
    pub fn hw_uuid(&self) -> (r: &String)
        ensures
            r@ == self@.hw_uuid,
    {
        &self.hw_uuid
    }

    /// The chip name field.
    pub fn chip(&self) -> (r: &String)
        ensures
            r@ == self@.chip,
    {
        &self.chip
    }
}

/// The (field name, pattern source) pairs of the hardware registry, in
/// registration order.
pub open spec fn hw_pairs() -> Seq<(Seq<char>, Seq<char>)> {
    seq![
        ("model"@, r"^\s+Model Name: (.*)\s*$"@),
        ("hw_uuid"@, r"^\s+Hardware UUID: (.*)\s*$"@),
        ("chip"@, r"^\s+Chip: (.*)\s*$"@),
    ]
}

/// Builds the registry of hardware patterns.
pub fn hw_registry() -> (r: Result<SuperXtractor, PatternCompileError>)
    ensures
        r is Ok <==> (forall|i: int|
            0 <= i < hw_pairs().len() ==> pattern_valid(#[trigger] hw_pairs()[i].1)),
        r matches Ok(x) ==> x@ == registry_of(hw_pairs()),
{
    let mut pairs: Vec<(String, String)> = Vec::new();
    pairs.push((String::from_str("model"), String::from_str(r"^\s+Model Name: (.*)\s*$")));
    pairs.push((String::from_str("hw_uuid"), String::from_str(r"^\s+Hardware UUID: (.*)\s*$")));
    pairs.push((String::from_str("chip"), String::from_str(r"^\s+Chip: (.*)\s*$")));
    proof {
        assert(pairs.deep_view() =~= hw_pairs());
    }
    SuperXtractor::new(pairs)
}

/// Extracts the hardware fields from an already-decoded report text and
/// folds them into a record. Yields nothing only when the pattern engine
/// rejects one of the fixed pattern sources.
pub fn hw_info_from_text(text: &str) -> (r: Option<HwInfo>)
    ensures
        r is Some <==> (forall|i: int|
            0 <= i < hw_pairs().len() ==> pattern_valid(#[trigger] hw_pairs()[i].1)),
        r matches Some(h) ==> h@ == record_of(
            extract_lines_spec(registry_of(hw_pairs()), split_lines_spec(text@)),
        ),
{
    match hw_registry() {
        Ok(xt) => {
            let found = xt.execute_by_line(String::from_str(text));
            HwInfo::new(found)
        },
        Err(_) => None,
    }
}

/// The pattern source of the repeated address matcher; `$` binds to line
/// boundaries when it is compiled.
pub open spec fn ip_pattern_src() -> Seq<char> {
    r"IPv4 Addresses:\s*(.*)$"@
}

/// Extracts every captured address from an already-decoded report text, in
/// order of appearance. Yields nothing only when the pattern engine rejects
/// the fixed pattern source.
pub fn ip_addresses_from_text(text: &str) -> (r: Option<Vec<String>>)
    ensures
        r is Some <==> pattern_valid(ip_pattern_src()),
        r matches Some(v) ==> v.deep_view() == regex_capture_all(ip_pattern_src(), text@),
{
    match Pattern::compile(r"IPv4 Addresses:\s*(.*)$") {
        Some(p) => Some(extract_all(&p, text)),
        None => None,
    }
}

} // verus!

