//! The line matcher: a registry of named patterns run against one line or a
//! whole block of text, and the whole-text repeated matcher.

use crate::pattern::Pattern;
use crate::pattern::pattern_valid;
use crate::pattern::regex_capture;
use crate::pattern::regex_capture_all;
use vstd::prelude::*;
use vstd::string::*;

verus! {

/// One successful pattern test: the field name paired with the text its
/// capture group extracted.
#[derive(Debug)]
pub struct Match {
    pub field: String,
    pub text: String,
}

impl View for Match {
    type V = (Seq<char>, Seq<char>);

    open spec fn view(&self) -> (Seq<char>, Seq<char>) {
        (self.field@, self.text@)
    }
}

impl DeepView for Match {
    type V = (Seq<char>, Seq<char>);

    open spec fn deep_view(&self) -> (Seq<char>, Seq<char>) {
        self@
    }
}

/// The segments of `s` between its line terminators, in order. Splitting is
/// not lossy: an empty text yields one empty line, and a trailing terminator
/// yields a trailing empty line.
pub open spec fn split_lines_spec(s: Seq<char>) -> Seq<Seq<char>>
    decreases s.len(),
{
    if s.len() == 0 {
        seq![Seq::<char>::empty()]
    } else {
        let rest = split_lines_spec(s.drop_last());
        if s.last() == '\n' {
            rest.push(Seq::<char>::empty())
        } else {
            rest.drop_last().push(rest.last().push(s.last()))
        }
    }
}

/// Splits `text` on the line-terminator character, keeping empty segments.
pub fn split_lines(text: &str) -> (lines: Vec<String>)
    ensures
        lines.deep_view() == split_lines_spec(text@),
{
    let n: usize = text.unicode_len();
    let mut lines: Vec<String> = Vec::new();
    let mut start: usize = 0;
    let mut i: usize = 0;
    proof {
        assert(text@.take(0) =~= Seq::<char>::empty());
        assert(text@.subrange(0, 0) =~= Seq::<char>::empty());
        assert(lines.deep_view() =~= Seq::<Seq<char>>::empty());
    }
    while i < n
        invariant
            start <= i <= n,
            n == text@.len(),
            lines.deep_view() == split_lines_spec(text@.take(i as int)).drop_last(),
            text@.subrange(start as int, i as int) == split_lines_spec(
                text@.take(i as int),
            ).last(),
        decreases n - i,
    {
        let ghost prev = split_lines_spec(text@.take(i as int));
        proof {
            assert(text@.take(i + 1).drop_last() =~= text@.take(i as int));
            assert(text@.take(i + 1).last() == text@[i as int]);
        }
        let c = text.get_char(i);
        if c == '\n' {
            let ghost old_lines = lines.deep_view();
            lines.push(String::from_str(text.substring_char(start, i)));
            proof {
                assert(lines.deep_view() =~= old_lines.push(
                    text@.subrange(start as int, i as int),
                ));
            }
            start = i + 1;
            proof {
                assert(split_lines_spec(text@.take(i + 1)) == prev.push(Seq::<char>::empty()));
                assert(split_lines_spec(text@.take(i + 1)).drop_last() =~= prev);
                assert(prev =~= old_lines.push(prev.last()));
                assert(text@.subrange(i + 1, i + 1) =~= Seq::<char>::empty());
            }
        } else {
            proof {
                let cur = split_lines_spec(text@.take(i + 1));
                assert(cur == prev.drop_last().push(prev.last().push(text@[i as int])));
                assert(cur.drop_last() =~= prev.drop_last());
                assert(text@.subrange(start as int, i + 1) =~= text@.subrange(
                    start as int,
                    i as int,
                ).push(text@[i as int]));
            }
        }
        i = i + 1;
    }
    let ghost old_lines = lines.deep_view();
    lines.push(String::from_str(text.substring_char(start, n)));
    proof {
        assert(text@.take(n as int) =~= text@);
        let full = split_lines_spec(text@);
        assert(lines.deep_view() =~= old_lines.push(text@.subrange(start as int, n as int)));
        assert(lines.deep_view() =~= full.drop_last().push(full.last()));
        assert(full.drop_last().push(full.last()) =~= full);
    }
    lines
}

/// The first registered pattern that captures on `line`, walking the
/// registry in order: the pair of its field name and the captured text.
pub open spec fn match_line_spec(
    reg: Seq<(Seq<char>, Seq<char>)>,
    line: Seq<char>,
) -> Option<(Seq<char>, Seq<char>)>
    decreases reg.len(),
{
    if reg.len() == 0 {
        None
    } else if regex_capture(reg[0].1, line) is Some {
        Some((reg[0].0, regex_capture(reg[0].1, line).unwrap()))
    } else {
        match_line_spec(reg.drop_first(), line)
    }
}

/// The matches that line-by-line extraction yields: each line contributes
/// its `match_line_spec` result when there is one, in input line order.
pub open spec fn extract_lines_spec(
    reg: Seq<(Seq<char>, Seq<char>)>,
    lines: Seq<Seq<char>>,
) -> Seq<(Seq<char>, Seq<char>)>
    decreases lines.len(),
{
    if lines.len() == 0 {
        Seq::<(Seq<char>, Seq<char>)>::empty()
    } else {
        let rest = extract_lines_spec(reg, lines.drop_last());
        match match_line_spec(reg, lines.last()) {
            Some(m) => rest.push(m),
            None => rest,
        }
    }
}

/// A supplied pattern source is not a valid regular expression with exactly
/// one capture group; `field` names the offending entry.
#[derive(Debug)]
pub struct PatternCompileError {
    pub field: String,
}

/// Field names are unique within the registry and every pattern source is
/// a valid pattern with exactly one capture group.
pub open spec fn registry_wf(reg: Seq<(Seq<char>, Seq<char>)>) -> bool {
    &&& forall|i: int, j: int| 0 <= i < j < reg.len() ==> reg[i].0 != reg[j].0
    &&& forall|i: int| 0 <= i < reg.len() ==> pattern_valid(#[trigger] reg[i].1)
}

/// The first index of `reg` whose field name is `key`, or -1 when absent.
pub open spec fn find_field(reg: Seq<(Seq<char>, Seq<char>)>, key: Seq<char>) -> int
    decreases reg.len(),
{
    if reg.len() == 0 {
        -1
    } else if reg[0].0 == key {
        0
    } else if find_field(reg.drop_first(), key) == -1 {
        -1
    } else {
        find_field(reg.drop_first(), key) + 1
    }
}

pub proof fn lemma_find_field(reg: Seq<(Seq<char>, Seq<char>)>, key: Seq<char>)
    ensures
        find_field(reg, key) == -1 ==> forall|i: int| 0 <= i < reg.len() ==> (#[trigger] reg[i]).0
            != key,
        find_field(reg, key) != -1 ==> {
            let f = find_field(reg, key);
            &&& 0 <= f < reg.len()
            &&& reg[f].0 == key
            &&& forall|i: int| 0 <= i < f ==> (#[trigger] reg[i]).0 != key
        },
    decreases reg.len(),
{
    if reg.len() > 0 && reg[0].0 != key {
        lemma_find_field(reg.drop_first(), key);
        assert(forall|i: int| 1 <= i < reg.len() ==> #[trigger] reg[i] == reg.drop_first()[i - 1]);
    }
}

/// `reg` with `key` bound to `val`: the prior entry under `key` is
/// overwritten in place, or a new entry is appended at the end.
pub open spec fn upsert(
    reg: Seq<(Seq<char>, Seq<char>)>,
    key: Seq<char>,
    val: Seq<char>,
) -> Seq<(Seq<char>, Seq<char>)> {
    if find_field(reg, key) == -1 {
        reg.push((key, val))
    } else {
        reg.update(find_field(reg, key), (key, val))
    }
}

/// The registry that an ordered sequence of (field name, pattern source)
/// pairs builds: folded in order as a name-keyed mapping, so a duplicate
/// field name silently overwrites the prior entry (last-registered wins).
pub open spec fn registry_of(pairs: Seq<(Seq<char>, Seq<char>)>) -> Seq<(Seq<char>, Seq<char>)>
    decreases pairs.len(),
{
    if pairs.len() == 0 {
        Seq::<(Seq<char>, Seq<char>)>::empty()
    } else {
        upsert(registry_of(pairs.drop_last()), pairs.last().0, pairs.last().1)
    }
}

pub proof fn lemma_upsert_wf(reg: Seq<(Seq<char>, Seq<char>)>, key: Seq<char>, val: Seq<char>)
    requires
        registry_wf(reg),
        pattern_valid(val),
    ensures
        registry_wf(upsert(reg, key, val)),
{
    lemma_find_field(reg, key);
}

pub proof fn lemma_registry_of_wf(pairs: Seq<(Seq<char>, Seq<char>)>)
    requires
        forall|i: int| 0 <= i < pairs.len() ==> pattern_valid(#[trigger] pairs[i].1),
    ensures
        registry_wf(registry_of(pairs)),
    decreases pairs.len(),
{
    if pairs.len() > 0 {
        assert(forall|i: int| 0 <= i < pairs.len() - 1 ==> #[trigger] pairs.drop_last()[i]
            == pairs[i]);
        lemma_registry_of_wf(pairs.drop_last());
        lemma_upsert_wf(registry_of(pairs.drop_last()), pairs.last().0, pairs.last().1);
    }
}

/// A registry of patterns, each under a unique field name, tested against
/// lines in registration order. Its view is the ordered sequence of
/// (field name, pattern source) pairs.
pub struct SuperXtractor {
    refs: Vec<(String, Pattern)>,
}

impl View for SuperXtractor {
    type V = Seq<(Seq<char>, Seq<char>)>;

    closed spec fn view(&self) -> Seq<(Seq<char>, Seq<char>)> {
        Seq::new(self.refs@.len(), |i: int| (self.refs@[i].0@, self.refs@[i].1@))
    }
}

impl SuperXtractor {
    /// The first position in `refs` holding `name` as its field name,
    /// matching `find_field` on the view.
    fn find_index(refs: &Vec<(String, Pattern)>, name: &String) -> (r: Option<usize>)
        ensures
            r matches Some(j) ==> (j as int) < refs.deep_view().len() && find_field(
                refs.deep_view(),
                name@,
            ) == j as int,
            r is None ==> find_field(refs.deep_view(), name@) == -1,
    {
        let ghost ov = refs.deep_view();
        let n: usize = refs.len();
        let mut j: usize = 0;
        while j < n
            invariant
                j <= n,
                n == refs.len(),
                ov == refs.deep_view(),
                forall|jj: int| 0 <= jj < j ==> (#[trigger] ov[jj]).0 != name@,
            decreases n - j,
        {
            if refs[j].0 == *name {
                proof {
                    lemma_find_field(ov, name@);
                    let f = find_field(ov, name@);
                    assert(ov[j as int].0 == name@);
                    if f == -1 {
                        assert(ov[j as int].0 != name@);
                    }
                    if f < j as int {
                        assert(ov[f].0 != name@);
                    }
                    if f > j as int {
                        assert(ov[j as int].0 != name@);
                    }
                }
                return Some(j);
            }
            j = j + 1;
        }
        proof {
            lemma_find_field(ov, name@);
            if find_field(ov, name@) != -1 {
                let f = find_field(ov, name@);
                assert(ov[f].0 != name@);
            }
        }
        None
    }

    /// Builds the registry from already-compiled patterns, folding the pairs
    /// in order as a name-keyed mapping: a duplicate field name silently
    /// overwrites the prior entry (last-registered wins).
    pub fn new_from_hash(refs: Vec<(String, Pattern)>) -> (r: SuperXtractor)
        ensures
            r@ == registry_of(refs.deep_view()),
            (forall|i: int|
                0 <= i < refs.deep_view().len() ==> pattern_valid(
                    #[trigger] refs.deep_view()[i].1,
                )) ==> registry_wf(r@),
    {
        let ghost pv = refs.deep_view();
        let mut rest = refs;
        let mut out: Vec<(String, Pattern)> = Vec::new();
        let ghost mut k: int = 0;
        proof {
            assert(pv.skip(0) =~= pv);
            assert(pv.take(0) =~= Seq::<(Seq<char>, Seq<char>)>::empty());
            assert(out.deep_view() =~= Seq::<(Seq<char>, Seq<char>)>::empty());
        }
        while rest.len() > 0
            invariant
                0 <= k <= pv.len(),
                rest.deep_view() == pv.skip(k),
                rest@.len() == pv.len() - k,
                out.deep_view() == registry_of(pv.take(k)),
            decreases rest.len(),
        {
            let ghost before = out.deep_view();
            proof {
                assert(k < pv.len());
                assert(rest.deep_view()[0] == pv[k]);
                assert(pv.take(k + 1).drop_last() =~= pv.take(k));
                assert(pv.take(k + 1).last() == pv[k]);
            }
            let ghost old_rest = rest.deep_view();
            let entry = rest.remove(0);
            proof {
                assert(rest.deep_view() =~= old_rest.drop_first());
                assert(old_rest.drop_first() =~= pv.skip(k + 1));
            }
            let (name, pat) = entry;
            match Self::find_index(&out, &name) {
                Some(j) => {
                    out[j] = (name, pat);
                    proof {
                        assert(out.deep_view() =~= before.update(j as int, (pv[k].0, pv[k].1)));
                        assert((pv[k].0, pv[k].1) == pv[k]);
                    }
                },
                None => {
                    out.push((name, pat));
                    proof {
                        assert(out.deep_view() =~= before.push((pv[k].0, pv[k].1)));
                        assert((pv[k].0, pv[k].1) == pv[k]);
                    }
                },
            }
            proof {
                k = k + 1;
            }
        }
        proof {
            assert(pv.skip(k) =~= rest.deep_view());
            assert(k == pv.len());
            assert(pv.take(k) =~= pv);
            if forall|i: int| 0 <= i < pv.len() ==> pattern_valid(#[trigger] pv[i].1) {
                lemma_registry_of_wf(pv);
            }
        }
        SuperXtractor { refs: out }
    }

    /// Builds a registry from (field name, pattern source) pairs. Every
    /// source must compile to a pattern with exactly one capture group;
    /// otherwise construction fails, naming the first offending field.
    /// Duplicate field names collapse to the last one supplied.
    pub fn new(refs: Vec<(String, String)>) -> (r: Result<SuperXtractor, PatternCompileError>)
        ensures
            r is Ok <==> (forall|i: int|
                0 <= i < refs.deep_view().len() ==> pattern_valid(
                    #[trigger] refs.deep_view()[i].1,
                )),
            r matches Ok(x) ==> x@ == registry_of(refs.deep_view()) && registry_wf(x@),
            r matches Err(e) ==> exists|i: int|
                0 <= i < refs.deep_view().len() && !pattern_valid(#[trigger] refs.deep_view()[i].1)
                    && e.field@ == refs.deep_view()[i].0 && (forall|j: int|
                    0 <= j < i ==> pattern_valid(refs.deep_view()[j].1)),
    {
        let ghost pv = refs.deep_view();
        let n: usize = refs.len();
        let mut compiled: Vec<(String, Pattern)> = Vec::new();
        let mut i: usize = 0;
        proof {
            assert(compiled.deep_view() =~= pv.take(0));
        }
        while i < n
            invariant
                i <= n,
                n == refs.len(),
                pv == refs.deep_view(),
                pv.len() == n as int,
                compiled.deep_view() == pv.take(i as int),
                forall|j: int| 0 <= j < i ==> pattern_valid(#[trigger] pv[j].1),
            decreases n - i,
        {
            let name = refs[i].0.clone();
            match Pattern::compile(refs[i].1.as_str()) {
                Some(p) => {
                    proof {
                        assert(compiled.deep_view().len() == compiled@.len());
                    }
                    compiled.push((name, p));
                    proof {
                        assert(compiled.deep_view() =~= pv.take(i + 1));
                    }
                },
                None => {
                    proof {
                        assert(!pattern_valid(pv[i as int].1));
                        assert((i as int) < pv.len() && !pattern_valid(pv[i as int].1) && name@
                            == pv[i as int].0 && (forall|j: int|
                            0 <= j < i as int ==> pattern_valid(pv[j].1)));
                    }
                    return Err(PatternCompileError { field: name });
                },
            }
            i = i + 1;
        }
        proof {
            assert(pv.take(n as int) =~= pv);
        }
        Ok(Self::new_from_hash(compiled))
    }

    /// Tests the registered patterns against `line` in registration order and
    /// returns the first capture, wrapped with its field name.
    pub fn match_line(&self, line: &str) -> (r: Option<Match>)
        ensures
            r matches Some(m) ==> match_line_spec(self@, line@) == Some(m@),
            r is None ==> match_line_spec(self@, line@) is None,
    {
        let n: usize = self.refs.len();
        let mut i: usize = 0;
        proof {
            assert(self@.skip(0) =~= self@);
        }
        while i < n
            invariant
                i <= n,
                n == self.refs.len(),
                match_line_spec(self@, line@) == match_line_spec(self@.skip(i as int), line@),
            decreases n - i,
        {
            proof {
                assert(self@.skip(i as int)[0] == self@[i as int]);
            }
            let entry = &self.refs[i];
            let r = entry.1.capture(line);
            match r {
                Some(text) => {
                    return Some(Match { field: entry.0.clone(), text });
                },
                None => {
                    proof {
                        assert(self@.skip(i as int).drop_first() =~= self@.skip(i + 1));
                    }
                },
            }
            i = i + 1;
        }
        proof {
            assert(self@.skip(n as int) =~= Seq::<(Seq<char>, Seq<char>)>::empty());
        }
        None
    }

    /// Splits `on` into lines and runs `match_line` once per line, in order;
    /// lines with no match contribute nothing.
    pub fn execute_by_line(&self, on: String) -> (r: Vec<Match>)
        ensures
            r.deep_view() == extract_lines_spec(self@, split_lines_spec(on@)),
    {
        let lines = split_lines(on.as_str());
        let ghost lv = lines.deep_view();
        let mut results: Vec<Match> = Vec::new();
        let n: usize = lines.len();
        proof {
            assert(lv.take(0) =~= Seq::<Seq<char>>::empty());
            assert(results.deep_view() =~= Seq::<(Seq<char>, Seq<char>)>::empty());
        }
        let mut i: usize = 0;
        while i < n
            invariant
                i <= n,
                n == lines.len(),
                lv == lines.deep_view(),
                lv == split_lines_spec(on@),
                results.deep_view() == extract_lines_spec(self@, lv.take(i as int)),
            decreases n - i,
        {
            proof {
                assert(lv.take(i + 1).drop_last() =~= lv.take(i as int));
                assert(lv.take(i + 1).last() == lv[i as int]);
                assert(lines@[i as int]@ == lv[i as int]);
            }
            let ghost before = results.deep_view();
            match self.match_line(lines[i].as_str()) {
                Some(m) => {
                    results.push(m);
                    proof {
                        assert(results.deep_view() =~= before.push(
                            extract_lines_spec(self@, lv.take(i + 1)).last(),
                        ));
                    }
                },
                None => {},
            }
            i = i + 1;
        }
        proof {
            assert(lv.take(n as int) =~= lv);
        }
        results
    }
}

/// Law: a successful line match is always the work of one registered
/// pattern — the first one, in registry order, that captures on the line —
/// and its text is exactly that pattern's captured group, never the whole
/// line in its place.
pub proof fn lemma_match_line_first_capture(reg: Seq<(Seq<char>, Seq<char>)>, line: Seq<char>)
    ensures
        match_line_spec(reg, line) matches Some(m) ==> exists|i: int|
            0 <= i < reg.len() && (#[trigger] reg[i]).0 == m.0 && regex_capture(reg[i].1, line)
                == Some(m.1) && (forall|j: int|
                0 <= j < i ==> regex_capture(reg[j].1, line) is None),
    decreases reg.len(),
{
    if reg.len() > 0 && regex_capture(reg[0].1, line) is None {
        lemma_match_line_first_capture(reg.drop_first(), line);
        if match_line_spec(reg, line) is Some {
            let m = match_line_spec(reg, line).unwrap();
            let w = choose|i: int|
                0 <= i < reg.drop_first().len() && (#[trigger] reg.drop_first()[i]).0 == m.0
                    && regex_capture(reg.drop_first()[i].1, line) == Some(m.1) && (forall|j: int|
                    0 <= j < i ==> regex_capture(reg.drop_first()[j].1, line) is None);
            assert(reg[w + 1] == reg.drop_first()[w]);
            assert(forall|j: int| 1 <= j < w + 1 ==> #[trigger] reg[j] == reg.drop_first()[j - 1]);
            assert(0 <= w + 1 < reg.len() && reg[w + 1].0 == m.0 && regex_capture(
                reg[w + 1].1,
                line,
            ) == Some(m.1) && (forall|j: int|
                0 <= j < w + 1 ==> regex_capture(reg[j].1, line) is None));
        }
    }
}

/// Law: line-by-line extraction yields no more matches than there are
/// lines, and every match's field name is one registered in the registry.
pub proof fn lemma_extract_lines_bounded(reg: Seq<(Seq<char>, Seq<char>)>, lines: Seq<Seq<char>>)
    ensures
        extract_lines_spec(reg, lines).len() <= lines.len(),
        forall|k: int| 0 <= k < extract_lines_spec(reg, lines).len() ==> exists|i: int|
            0 <= i < reg.len() && (#[trigger] extract_lines_spec(reg, lines)[k]).0 == reg[i].0,
    decreases lines.len(),
{
    if lines.len() > 0 {
        lemma_extract_lines_bounded(reg, lines.drop_last());
        let rest = extract_lines_spec(reg, lines.drop_last());
        let whole = extract_lines_spec(reg, lines);
        if match_line_spec(reg, lines.last()) is Some {
            let m = match_line_spec(reg, lines.last()).unwrap();
            lemma_match_line_first_capture(reg, lines.last());
            let w = choose|i: int|
                0 <= i < reg.len() && (#[trigger] reg[i]).0 == m.0 && regex_capture(
                    reg[i].1,
                    lines.last(),
                ) == Some(m.1) && (forall|j: int|
                    0 <= j < i ==> regex_capture(reg[j].1, lines.last()) is None);
            assert(whole == rest.push(m));
            assert(forall|k: int| 0 <= k < rest.len() ==> #[trigger] whole[k] == rest[k]);
            assert(whole[rest.len() as int].0 == reg[w].0);
        }
    }
}

/// Scans `text` as one unit with a single compiled pattern and returns the
/// captured substring of every non-overlapping match, in order of occurrence.
pub fn extract_all(pattern: &Pattern, text: &str) -> (r: Vec<String>)
    ensures
        r.deep_view() == regex_capture_all(pattern@, text@),
{
    pattern.capture_all(text)
}

} // verus!
