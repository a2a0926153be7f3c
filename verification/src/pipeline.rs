//! Tokenization pipeline: splits a text into lines and runs, feeds each
//! non-blank run to the external analyzer, and assembles the ordered record
//! sequence. The analyzer is reached through one trusted wrapper; everything
//! around it is verified for every token sequence the analyzer may return.

use vstd::prelude::*;
use crate::segmenter::{char_is_whitespace, spec_runs, split_words};
use crate::feature::{
    Record, RecordV, generate_dummy_data, map_token, spec_split, spec_token_record, split_on,
};
use vibrato::tokenizer::Tokenizer;

verus! {

#[verifier::external_type_specification]
#[verifier::external_body]
pub struct ExTokenizer(Tokenizer);

/// A blank piece of text: every character is whitespace. The empty text is
/// blank; exactly the pieces whose whitespace-trimmed content is empty.
pub open spec fn spec_blank(r: Seq<char>) -> bool {
    forall|i: int| 0 <= i < r.len() ==> char_is_whitespace(#[trigger] r[i])
}

/// Whether every character of the text is whitespace.
pub fn is_blank(s: &str) -> (r: bool)
    ensures
        r == spec_blank(s@),
{
    let n = s.unicode_len();
    let mut i: usize = 0;
    while i < n
        invariant
            n == s@.len(),
            i <= n,
            forall|j: int| 0 <= j < i ==> char_is_whitespace(#[trigger] s@[j]),
        decreases n - i,
    {
        let c = s.get_char(i);
        if !c.is_whitespace() {
            return false;
        }
        i += 1;
    }
    true
}

/// A line with one trailing carriage return stripped.
pub open spec fn spec_strip_cr(l: Seq<char>) -> Seq<char> {
    if l.len() > 0 && l.last() == '\r' {
        l.drop_last()
    } else {
        l
    }
}

/// The lines of a text, as `str::lines` yields them: the pieces between
/// line feeds, one trailing carriage return stripped from each, and no
/// empty final line after a terminal line feed.
pub open spec fn spec_lines(s: Seq<char>) -> Seq<Seq<char>> {
    if s.len() == 0 {
        Seq::empty()
    } else {
        let sp = spec_split(s, '\n');
        let sp2 = if s.last() == '\n' {
            sp.drop_last()
        } else {
            sp
        };
        sp2.map_values(|l: Seq<char>| spec_strip_cr(l))
    }
}

/// Splits a text into its lines.
pub fn split_lines(s: &str) -> (r: Vec<String>)
    ensures
        r.deep_view() == spec_lines(s@),
{
    let n = s.unicode_len();
    let mut pieces = split_on(s, '\n');
    if n == 0 {
        let out: Vec<String> = Vec::new();
        proof {
            assert(out.deep_view() =~= spec_lines(s@));
        }
        return out;
    }
    let last_c = s.get_char(n - 1);
    if last_c == '\n' {
        pieces.pop();
    }
    let ghost base = pieces.deep_view();
    let ghost mapped = base.map_values(|l: Seq<char>| spec_strip_cr(l));
    let mut out: Vec<String> = Vec::new();
    let mut i: usize = 0;
    proof {
        assert(out.deep_view() =~= mapped.take(0));
    }
    while i < pieces.len()
        invariant
            i <= pieces@.len(),
            base == pieces.deep_view(),
            mapped == base.map_values(|l: Seq<char>| spec_strip_cr(l)),
            out.deep_view() == mapped.take(i as int),
        decreases pieces@.len() - i,
    {
        let p = &pieces[i];
        let m = p.as_str().unicode_len();
        let mut strip = false;
        if m > 0 {
            let c = p.as_str().get_char(m - 1);
            if c == '\r' {
                strip = true;
            }
        }
        let ghost prev = out.deep_view();
        if strip {
            let stripped = p.as_str().substring_char(0, m - 1).to_owned();
            proof {
                assert(stripped@ =~= spec_strip_cr(base[i as int]));
            }
            out.push(stripped);
        } else {
            let kept = p.clone();
            proof {
                assert(kept@ =~= spec_strip_cr(base[i as int]));
            }
            out.push(kept);
        }
        proof {
            assert(out.deep_view() =~= prev.push(mapped[i as int]));
            assert(mapped.take(i + 1) =~= mapped.take(i as int).push(mapped[i as int]));
        }
        i += 1;
    }
    proof {
        assert(mapped.take(pieces@.len() as int) =~= mapped);
    }
    out
}

/// All runs of all lines of a text, in reading order.
pub open spec fn spec_steps(s: Seq<char>) -> Seq<Seq<char>> {
    spec_lines(s).map_values(|l: Seq<char>| spec_runs(l)).flatten()
}

/// The non-blank steps among a step sequence, in order.
pub open spec fn spec_word_steps(steps: Seq<Seq<char>>) -> Seq<Seq<char>>
    decreases steps.len(),
{
    if steps.len() == 0 {
        Seq::empty()
    } else if spec_blank(steps[0]) {
        spec_word_steps(steps.drop_first())
    } else {
        seq![steps[0]] + spec_word_steps(steps.drop_first())
    }
}

/// The runs of a text that are handed to the analyzer: the non-blank runs,
/// in reading order.
pub open spec fn spec_word_runs(s: Seq<char>) -> Seq<Seq<char>> {
    spec_word_steps(spec_steps(s))
}

pub proof fn lemma_word_steps_add(a: Seq<Seq<char>>, b: Seq<Seq<char>>)
    ensures
        spec_word_steps(a + b) == spec_word_steps(a) + spec_word_steps(b),
    decreases a.len(),
{
    if a.len() == 0 {
        assert(a + b =~= b);
        assert(spec_word_steps(a) + spec_word_steps(b) =~= spec_word_steps(b));
    } else {
        let rest = a.drop_first();
        lemma_word_steps_add(rest, b);
        assert((a + b).drop_first() =~= rest + b);
        assert((a + b)[0] == a[0]);
        if !spec_blank(a[0]) {
            assert(seq![a[0]] + (spec_word_steps(rest) + spec_word_steps(b)) =~= (seq![a[0]]
                + spec_word_steps(rest)) + spec_word_steps(b));
        }
    }
}

/// Materializes all steps of a text.
pub fn all_steps(s: &str) -> (r: Vec<String>)
    ensures
        r.deep_view() == spec_steps(s@),
{
    let lines = split_lines(s);
    let ghost mapped = lines.deep_view().map_values(|l: Seq<char>| spec_runs(l));
    let mut out: Vec<String> = Vec::new();
    let mut i: usize = 0;
    proof {
        assert(mapped.take(0) =~= Seq::<Seq<Seq<char>>>::empty());
        assert(mapped.take(0).flatten() =~= Seq::<Seq<char>>::empty());
        assert(out.deep_view() =~= Seq::<Seq<char>>::empty());
    }
    while i < lines.len()
        invariant
            i <= lines@.len(),
            mapped == lines.deep_view().map_values(|l: Seq<char>| spec_runs(l)),
            out.deep_view() == mapped.take(i as int).flatten(),
        decreases lines@.len() - i,
    {
        let runs = split_words(lines[i].as_str());
        let ghost rbase = out.deep_view();
        let mut j: usize = 0;
        proof {
            assert(rbase + runs.deep_view().take(0) =~= rbase);
        }
        while j < runs.len()
            invariant
                j <= runs@.len(),
                out.deep_view() == rbase + runs.deep_view().take(j as int),
            decreases runs@.len() - j,
        {
            let ghost prev = out.deep_view();
            let ghost rv = runs@[j as int]@;
            out.push(runs[j].clone());
            proof {
                assert(out.deep_view() =~= prev.push(rv));
                assert(runs.deep_view().take(j + 1) =~= runs.deep_view().take(j as int).push(rv));
                assert(rbase + runs.deep_view().take(j as int).push(rv) =~= (rbase
                    + runs.deep_view().take(j as int)).push(rv));
            }
            j += 1;
        }
        proof {
            assert(runs.deep_view().take(runs@.len() as int) =~= runs.deep_view());
            assert(runs.deep_view() == mapped[i as int]);
            assert(mapped.take(i + 1) =~= mapped.take(i as int).push(mapped[i as int]));
            mapped.take(i as int).lemma_flatten_push(mapped[i as int]);
        }
        i += 1;
    }
    proof {
        assert(mapped.take(lines@.len() as int) =~= mapped);
    }
    out
}

/// Materializes the word runs of a text: the runs the analyzer will see.
pub fn word_runs(s: &str) -> (r: Vec<String>)
    ensures
        r.deep_view() == spec_word_runs(s@),
{
    let steps = all_steps(s);
    let mut out: Vec<String> = Vec::new();
    let mut i: usize = 0;
    proof {
        assert(steps.deep_view().take(0) =~= Seq::<Seq<char>>::empty());
        assert(out.deep_view() =~= spec_word_steps(steps.deep_view().take(0)));
    }
    while i < steps.len()
        invariant
            i <= steps@.len(),
            steps.deep_view() == spec_steps(s@),
            out.deep_view() == spec_word_steps(steps.deep_view().take(i as int)),
        decreases steps@.len() - i,
    {
        let ghost sv = steps.deep_view();
        let ghost stepv = sv[i as int];
        let ghost prev = out.deep_view();
        if !is_blank(steps[i].as_str()) {
            out.push(steps[i].clone());
            proof {
                assert(out.deep_view() =~= prev + seq![stepv]);
            }
        }
        proof {
            lemma_word_steps_add(sv.take(i as int), seq![stepv]);
            assert(sv.take(i + 1) =~= sv.take(i as int) + seq![stepv]);
            assert(seq![stepv].drop_first() =~= Seq::<Seq<char>>::empty());
            reveal_with_fuel(spec_word_steps, 3);
            if spec_blank(stepv) {
                assert(spec_word_steps(seq![stepv]) =~= Seq::<Seq<char>>::empty());
                assert(prev + spec_word_steps(seq![stepv]) =~= prev);
            } else {
                assert(spec_word_steps(seq![stepv]) =~= seq![stepv]);
            }
        }
        i += 1;
    }
    proof {
        assert(steps.deep_view().take(steps@.len() as int) =~= steps.deep_view());
    }
    out
}

/// The record group of one analyzer token sequence, in emission order.
pub open spec fn spec_token_group(toks: Seq<(Seq<char>, Seq<char>)>) -> Seq<RecordV> {
    toks.map_values(|t: (Seq<char>, Seq<char>)| spec_token_record(t.0, t.1))
}

/// Maps every token of one word run to its word record, in emission order.
pub fn token_records(toks: &Vec<(String, String)>) -> (r: Vec<Record>)
    ensures
        r.deep_view() == spec_token_group(toks.deep_view()),
{
    let mut out: Vec<Record> = Vec::new();
    let mut i: usize = 0;
    proof {
        assert(out.deep_view() =~= spec_token_group(toks.deep_view()).take(0));
    }
    while i < toks.len()
        invariant
            i <= toks@.len(),
            out.deep_view() == spec_token_group(toks.deep_view()).take(i as int),
        decreases toks@.len() - i,
    {
        let ghost prev = out.deep_view();
        let rec = map_token(toks[i].0.as_str(), toks[i].1.as_str());
        out.push(rec);
        proof {
            let g = spec_token_group(toks.deep_view());
            assert(out.deep_view() =~= prev.push(g[i as int]));
            assert(g.take(i + 1) =~= g.take(i as int).push(g[i as int]));
        }
        i += 1;
    }
    proof {
        assert(spec_token_group(toks.deep_view()).take(toks@.len() as int) =~= spec_token_group(
            toks.deep_view(),
        ));
    }
    out
}

/// The assembled records for a step sequence, given one token sequence per
/// non-blank step, in order: a blank step yields exactly its dummy record,
/// and every other step yields the word records of its tokens in emission
/// order. Nothing is reordered, merged or dropped.
pub open spec fn spec_assemble(
    steps: Seq<Seq<char>>,
    toks: Seq<Seq<(Seq<char>, Seq<char>)>>,
) -> Seq<RecordV>
    decreases steps.len(),
{
    if steps.len() == 0 {
        Seq::empty()
    } else if spec_blank(steps[0]) {
        seq![RecordV::Dummy { source: steps[0] }] + spec_assemble(steps.drop_first(), toks)
    } else if toks.len() == 0 {
        Seq::empty()
    } else {
        spec_token_group(toks[0]) + spec_assemble(steps.drop_first(), toks.drop_first())
    }
}

/// Records from earlier steps precede all records from later steps: the
/// assembly of concatenated step sequences is the concatenation of their
/// assemblies. In particular all records of line `k` precede all records of
/// line `k + 1`.
pub proof fn lemma_assemble_concat(
    s1: Seq<Seq<char>>,
    s2: Seq<Seq<char>>,
    t1: Seq<Seq<(Seq<char>, Seq<char>)>>,
    t2: Seq<Seq<(Seq<char>, Seq<char>)>>,
)
    requires
        t1.len() == spec_word_steps(s1).len(),
    ensures
        spec_assemble(s1 + s2, t1 + t2) == spec_assemble(s1, t1) + spec_assemble(s2, t2),
    decreases s1.len(),
{
    if s1.len() == 0 {
        assert(s1 + s2 =~= s2);
        assert(t1 + t2 =~= t2);
        assert(spec_assemble(s1, t1) + spec_assemble(s2, t2) =~= spec_assemble(s2, t2));
    } else {
        let h = s1[0];
        let rest = s1.drop_first();
        assert((s1 + s2)[0] == h);
        assert((s1 + s2).drop_first() =~= rest + s2);
        if spec_blank(h) {
            lemma_assemble_concat(rest, s2, t1, t2);
            assert(seq![RecordV::Dummy { source: h }] + (spec_assemble(rest, t1) + spec_assemble(
                s2,
                t2,
            )) =~= (seq![RecordV::Dummy { source: h }] + spec_assemble(rest, t1)) + spec_assemble(
                s2,
                t2,
            ));
        } else {
            assert(t1.len() >= 1);
            assert((t1 + t2)[0] == t1[0]);
            assert((t1 + t2).drop_first() =~= t1.drop_first() + t2);
            lemma_assemble_concat(rest, s2, t1.drop_first(), t2);
            assert(spec_token_group(t1[0]) + (spec_assemble(rest, t1.drop_first())
                + spec_assemble(s2, t2)) =~= (spec_token_group(t1[0]) + spec_assemble(
                rest,
                t1.drop_first(),
            )) + spec_assemble(s2, t2));
        }
    }
}

/// Assembles the record sequence for a text, given the analyzer's token
/// sequence for each word run, in order.
pub fn assemble_records(s: &str, analyses: &Vec<Vec<(String, String)>>) -> (r: Vec<Record>)
    requires
        analyses.deep_view().len() == spec_word_runs(s@).len(),
    ensures
        r.deep_view() == spec_assemble(spec_steps(s@), analyses.deep_view()),
{
    let steps = all_steps(s);
    let ghost sv = steps.deep_view();
    let ghost av = analyses.deep_view();
    let mut out: Vec<Record> = Vec::new();
    let mut i: usize = 0;
    let mut ai: usize = 0;
    proof {
        assert(sv.take(0) =~= Seq::<Seq<char>>::empty());
        assert(av.take(0) =~= Seq::<Seq<(Seq<char>, Seq<char>)>>::empty());
        assert(out.deep_view() =~= spec_assemble(sv.take(0), av.take(0)));
        assert(sv.skip(0) =~= sv);
    }
    while i < steps.len()
        invariant
            i <= steps@.len(),
            ai <= av.len(),
            sv == steps.deep_view(),
            av == analyses.deep_view(),
            sv == spec_steps(s@),
            av.len() == spec_word_steps(sv).len(),
            ai == spec_word_steps(sv.take(i as int)).len(),
            av.len() - ai == spec_word_steps(sv.skip(i as int)).len(),
            out.deep_view() == spec_assemble(sv.take(i as int), av.take(ai as int)),
        decreases steps@.len() - i,
    {
        let ghost stepv = sv[i as int];
        let ghost prev = out.deep_view();
        proof {
            assert(sv.skip(i as int) =~= seq![stepv] + sv.skip(i + 1));
            lemma_word_steps_add(seq![stepv], sv.skip(i + 1));
            assert(seq![stepv].drop_first() =~= Seq::<Seq<char>>::empty());
            reveal_with_fuel(spec_word_steps, 3);
            reveal_with_fuel(spec_assemble, 3);
        }
        if is_blank(steps[i].as_str()) {
            let rec = generate_dummy_data(steps[i].as_str());
            out.push(rec);
            proof {
                assert(spec_word_steps(seq![stepv]) =~= Seq::<Seq<char>>::empty());
                lemma_assemble_concat(sv.take(i as int), seq![stepv], av.take(ai as int), Seq::empty());
                assert(av.take(ai as int) + Seq::<Seq<(Seq<char>, Seq<char>)>>::empty()
                    =~= av.take(ai as int));
                assert(spec_assemble(seq![stepv], Seq::empty()) =~= seq![RecordV::Dummy { source: stepv }]);
                assert(sv.take(i + 1) =~= sv.take(i as int) + seq![stepv]);
                assert(out.deep_view() =~= prev + seq![RecordV::Dummy { source: stepv }]);
                lemma_word_steps_add(sv.take(i as int), seq![stepv]);
            }
        } else {
            proof {
                assert(spec_word_steps(seq![stepv]) =~= seq![stepv]);
                assert(av.len() - ai >= 1);
            }
            let alen = analyses.len();
            assert(ai < alen);
            let mut recs = token_records(&analyses[ai]);
            let ghost recsv = recs.deep_view();
            out.append(&mut recs);
            proof {
                assert(av[ai as int] == analyses@[ai as int].deep_view());
                assert(recsv == spec_token_group(av[ai as int]));
                lemma_assemble_concat(
                    sv.take(i as int),
                    seq![stepv],
                    av.take(ai as int),
                    seq![av[ai as int]],
                );
                assert(av.take(ai as int) + seq![av[ai as int]] =~= av.take(ai + 1));
                assert(seq![av[ai as int]].drop_first()
                    =~= Seq::<Seq<(Seq<char>, Seq<char>)>>::empty());
                assert(spec_assemble(seq![stepv], seq![av[ai as int]]) =~= spec_token_group(
                    av[ai as int],
                ));
                assert(sv.take(i + 1) =~= sv.take(i as int) + seq![stepv]);
                assert(out.deep_view() =~= prev + recsv);
                lemma_word_steps_add(sv.take(i as int), seq![stepv]);
            }
            ai += 1;
        }
        i += 1;
    }
    proof {
        assert(sv.take(steps@.len() as int) =~= sv);
        assert(sv.skip(steps@.len() as int) =~= Seq::<Seq<char>>::empty());
        assert(ai == av.len());
        assert(av.take(ai as int) =~= av);
    }
    out
}

/// A character-contiguous slice of `full`.
pub open spec fn is_slice_of(sub: Seq<char>, full: Seq<char>) -> bool {
    exists|a: int, b: int| 0 <= a <= b <= full.len() && sub == full.subrange(a, b)
}

/// No line feed occurs in the text.
pub open spec fn spec_no_lf(x: Seq<char>) -> bool {
    forall|c: int| 0 <= c < x.len() ==> x[c] != '\n'
}

/// The source text of a record.
pub open spec fn spec_record_source(rv: RecordV) -> Seq<char> {
    match rv {
        RecordV::Word { source, fields } => source,
        RecordV::Dummy { source } => source,
    }
}

proof fn lemma_split_no_delim(s: Seq<char>, d: char)
    ensures
        forall|k: int|
            0 <= k < spec_split(s, d).len() ==> forall|c: int|
                0 <= c < (#[trigger] spec_split(s, d)[k]).len() ==> spec_split(s, d)[k][c] != d,
    decreases s.len(),
{
    if s.len() > 0 {
        lemma_split_no_delim(s.drop_first(), d);
        let rest = spec_split(s.drop_first(), d);
        let sp = spec_split(s, d);
        if s[0] == d {
            assert forall|k: int| 0 <= k < sp.len() implies forall|c: int|
                0 <= c < (#[trigger] sp[k]).len() ==> sp[k][c] != d by {
                if k > 0 {
                    assert(sp[k] == rest[k - 1]);
                }
            }
        } else {
            crate::feature::lemma_split_len(s.drop_first(), d);
            assert forall|k: int| 0 <= k < sp.len() implies forall|c: int|
                0 <= c < (#[trigger] sp[k]).len() ==> sp[k][c] != d by {
                if k == 0 {
                    assert(sp[0] == seq![s[0]] + rest[0]);
                    assert forall|c: int| 0 <= c < sp[0].len() implies sp[0][c] != d by {
                        if c == 0 {
                            assert(sp[0][0] == s[0]);
                        } else {
                            assert(sp[0][c] == rest[0][c - 1]);
                        }
                    }
                } else {
                    assert(sp[k] == rest.drop_first()[k - 1]);
                    assert(rest.drop_first()[k - 1] == rest[k]);
                }
            }
        }
    }
}

proof fn lemma_lines_no_lf(s: Seq<char>)
    ensures
        forall|k: int| 0 <= k < spec_lines(s).len() ==> spec_no_lf(#[trigger] spec_lines(s)[k]),
{
    if s.len() > 0 {
        lemma_split_no_delim(s, '\n');
        let sp = spec_split(s, '\n');
        let sp2 = if s.last() == '\n' {
            sp.drop_last()
        } else {
            sp
        };
        assert forall|k: int| 0 <= k < spec_lines(s).len() implies spec_no_lf(
            #[trigger] spec_lines(s)[k],
        ) by {
            assert(spec_lines(s)[k] == spec_strip_cr(sp2[k]));
            assert(sp2[k] == sp[k]);
            assert forall|c: int| 0 <= c < spec_strip_cr(sp2[k]).len() implies spec_strip_cr(
                sp2[k],
            )[c] != '\n' by {
                assert(spec_strip_cr(sp2[k])[c] == sp[k][c]);
            }
        }
    }
}

proof fn lemma_runs_are_slices(l: Seq<char>)
    ensures
        forall|i: int| 0 <= i < spec_runs(l).len() ==> is_slice_of(#[trigger] spec_runs(l)[i], l),
    decreases l.len(),
{
    if l.len() > 0 {
        crate::segmenter::lemma_first_run_len(l);
        let k = crate::segmenter::first_run_len(l) as int;
        let tail = l.skip(k);
        lemma_runs_are_slices(tail);
        assert forall|i: int| 0 <= i < spec_runs(l).len() implies is_slice_of(
            #[trigger] spec_runs(l)[i],
            l,
        ) by {
            if i == 0 {
                assert(spec_runs(l)[0] == l.take(k));
                assert(l.take(k) == l.subrange(0, k));
            } else {
                assert(spec_runs(l)[i] == spec_runs(tail)[i - 1]);
                let sub = spec_runs(tail)[i - 1];
                let (a, b) = choose|a: int, b: int|
                    0 <= a <= b <= tail.len() && sub == tail.subrange(a, b);
                assert(tail.subrange(a, b) =~= l.subrange(k + a, k + b));
            }
        }
    }
}

proof fn lemma_slice_no_lf(sub: Seq<char>, full: Seq<char>)
    requires
        is_slice_of(sub, full),
        spec_no_lf(full),
    ensures
        spec_no_lf(sub),
{
    let (a, b) = choose|a: int, b: int| 0 <= a <= b <= full.len() && sub == full.subrange(a, b);
    assert forall|c: int| 0 <= c < sub.len() implies sub[c] != '\n' by {
        assert(sub[c] == full[a + c]);
    }
}

proof fn lemma_steps_no_lf(s: Seq<char>)
    ensures
        forall|i: int| 0 <= i < spec_steps(s).len() ==> spec_no_lf(#[trigger] spec_steps(s)[i]),
{
    lemma_lines_no_lf(s);
    let lines = spec_lines(s);
    let mapped = lines.map_values(|l: Seq<char>| spec_runs(l));
    assert forall|k: int, r: int|
        0 <= k < mapped.len() && 0 <= r < mapped[k].len() implies spec_no_lf(
        #[trigger] mapped[k][r],
    ) by {
        lemma_runs_are_slices(lines[k]);
        lemma_slice_no_lf(spec_runs(lines[k])[r], lines[k]);
    }
    lemma_flatten_elems(mapped);
}

proof fn lemma_flatten_elems(ss: Seq<Seq<Seq<char>>>)
    requires
        forall|k: int, r: int|
            0 <= k < ss.len() && 0 <= r < ss[k].len() ==> spec_no_lf(#[trigger] ss[k][r]),
    ensures
        forall|i: int| 0 <= i < ss.flatten().len() ==> spec_no_lf(#[trigger] ss.flatten()[i]),
    decreases ss.len(),
{
    if ss.len() > 0 {
        let rest = ss.drop_first();
        assert forall|k: int, r: int|
            0 <= k < rest.len() && 0 <= r < rest[k].len() implies spec_no_lf(
            #[trigger] rest[k][r],
        ) by {
            assert(rest[k] == ss[k + 1]);
        }
        lemma_flatten_elems(rest);
        assert(ss.flatten() == ss[0] + rest.flatten());
        assert forall|i: int| 0 <= i < ss.flatten().len() implies spec_no_lf(
            #[trigger] ss.flatten()[i],
        ) by {
            if i < ss[0].len() {
                assert(ss.flatten()[i] == ss[0][i]);
            } else {
                assert(ss.flatten()[i] == rest.flatten()[i - ss[0].len()]);
            }
        }
    }
}

proof fn lemma_assemble_sources_no_lf(
    steps: Seq<Seq<char>>,
    toks: Seq<Seq<(Seq<char>, Seq<char>)>>,
)
    requires
        toks.len() == spec_word_steps(steps).len(),
        forall|i: int| 0 <= i < steps.len() ==> spec_no_lf(#[trigger] steps[i]),
        forall|i: int, j: int|
            0 <= i < toks.len() && 0 <= j < toks[i].len() ==> is_slice_of(
                (#[trigger] toks[i][j]).0,
                spec_word_steps(steps)[i],
            ),
    ensures
        forall|k: int|
            0 <= k < spec_assemble(steps, toks).len() ==> spec_no_lf(
                spec_record_source(#[trigger] spec_assemble(steps, toks)[k]),
            ),
    decreases steps.len(),
{
    if steps.len() > 0 {
        let h = steps[0];
        let rest = steps.drop_first();
        let out = spec_assemble(steps, toks);
        assert(steps =~= seq![h] + rest);
        lemma_word_steps_add(seq![h], rest);
        reveal_with_fuel(spec_word_steps, 3);
        assert(seq![h].drop_first() =~= Seq::<Seq<char>>::empty());
        assert forall|i: int| 0 <= i < rest.len() implies spec_no_lf(#[trigger] rest[i]) by {
            assert(rest[i] == steps[i + 1]);
        }
        if spec_blank(h) {
            assert(spec_word_steps(seq![h]) =~= Seq::<Seq<char>>::empty());
            assert(spec_word_steps(steps) =~= spec_word_steps(rest));
            lemma_assemble_sources_no_lf(rest, toks);
            assert forall|k: int| 0 <= k < out.len() implies spec_no_lf(
                spec_record_source(#[trigger] out[k]),
            ) by {
                if k == 0 {
                    assert(out[0] == RecordV::Dummy { source: h });
                } else {
                    assert(out[k] == spec_assemble(rest, toks)[k - 1]);
                }
            }
        } else {
            assert(spec_word_steps(seq![h]) =~= seq![h]);
            assert(spec_word_steps(steps) =~= seq![h] + spec_word_steps(rest));
            assert(toks.len() >= 1);
            let trest = toks.drop_first();
            assert forall|i: int, j: int|
                0 <= i < trest.len() && 0 <= j < trest[i].len() implies is_slice_of(
                (#[trigger] trest[i][j]).0,
                spec_word_steps(rest)[i],
            ) by {
                assert(trest[i] == toks[i + 1]);
                assert(spec_word_steps(steps)[i + 1] == spec_word_steps(rest)[i]);
            }
            lemma_assemble_sources_no_lf(rest, trest);
            let g = spec_token_group(toks[0]);
            assert forall|k: int| 0 <= k < out.len() implies spec_no_lf(
                spec_record_source(#[trigger] out[k]),
            ) by {
                if k < g.len() {
                    assert(out[k] == g[k]);
                    assert(g[k] == spec_token_record(toks[0][k].0, toks[0][k].1));
                    assert(spec_word_steps(steps)[0] == h);
                    assert(is_slice_of(toks[0][k].0, h));
                    lemma_slice_no_lf(toks[0][k].0, h);
                } else {
                    assert(out[k] == spec_assemble(rest, trest)[k - g.len()]);
                }
            }
        }
    }
}

/// The empty text yields no records at all, whatever the analyzer would
/// have returned.
pub proof fn lemma_empty_text_no_records(toks: Seq<Seq<(Seq<char>, Seq<char>)>>)
    ensures
        spec_assemble(spec_steps(Seq::empty()), toks) == Seq::<RecordV>::empty(),
{
    let lines = spec_lines(Seq::empty());
    assert(lines =~= Seq::<Seq<char>>::empty());
    let mapped = lines.map_values(|l: Seq<char>| spec_runs(l));
    assert(mapped =~= Seq::<Seq<Seq<char>>>::empty());
    assert(mapped.flatten() =~= Seq::<Seq<char>>::empty());
}

/// A non-empty blank text yields exactly one dummy record whose source is
/// the whole input. This holds for every blank input that holds no line
/// feed and does not end in a carriage return; a line terminator inside a
/// blank input splits it into several lines, one dummy record each.
pub proof fn lemma_blank_text_single_dummy(s: Seq<char>, toks: Seq<Seq<(Seq<char>, Seq<char>)>>)
    requires
        s.len() > 0,
        spec_blank(s),
        spec_no_lf(s),
        s.last() != '\r',
    ensures
        spec_assemble(spec_steps(s), toks) == seq![RecordV::Dummy { source: s }],
{
    crate::feature::lemma_split_at_delim(s, '\n', s.len() as int);
    assert(spec_split(s, '\n') == seq![s]);
    assert(s.last() != '\n');
    let lines = spec_lines(s);
    assert(lines =~= seq![s].map_values(|l: Seq<char>| spec_strip_cr(l)));
    assert(spec_strip_cr(s) == s);
    assert(lines =~= seq![s]);
    assert forall|i: int| 0 <= i < s.len() implies crate::segmenter::spec_category(
        #[trigger] s[i],
    ) == crate::segmenter::spec_category(s[0]) by {
        assert(char_is_whitespace(s[i]) && char_is_whitespace(s[0]));
    }
    crate::segmenter::lemma_first_run_len_unique(s, s.len() as int);
    assert(s.take(s.len() as int) =~= s);
    assert(s.skip(s.len() as int) =~= Seq::<char>::empty());
    reveal_with_fuel(spec_runs, 3);
    assert(spec_runs(s) == seq![s]);
    let mapped = lines.map_values(|l: Seq<char>| spec_runs(l));
    assert(mapped =~= seq![spec_runs(s)]);
    mapped.lemma_flatten_singleton();
    assert(spec_steps(s) == seq![s]);
    reveal_with_fuel(spec_assemble, 3);
    assert(seq![s].drop_first() =~= Seq::<Seq<char>>::empty());
    assert(spec_assemble(seq![s], toks) =~= seq![RecordV::Dummy { source: s }]);
}

/// No record source ever holds a line feed: dummy sources are runs of a
/// single line, and word sources are slices of such runs.
pub proof fn lemma_sources_hold_no_line_feed(s: Seq<char>, toks: Seq<Seq<(Seq<char>, Seq<char>)>>)
    requires
        toks.len() == spec_word_runs(s).len(),
        forall|i: int, j: int|
            0 <= i < toks.len() && 0 <= j < toks[i].len() ==> is_slice_of(
                (#[trigger] toks[i][j]).0,
                spec_word_runs(s)[i],
            ),
    ensures
        forall|k: int|
            0 <= k < spec_assemble(spec_steps(s), toks).len() ==> spec_no_lf(
                spec_record_source(#[trigger] spec_assemble(spec_steps(s), toks)[k]),
            ),
{
    lemma_steps_no_lf(s);
    lemma_assemble_sources_no_lf(spec_steps(s), toks);
}

/// Relies on vibrato's `Tokenizer::new_worker`, `Worker::reset_sentence`,
/// `Worker::tokenize`, `Worker::token_iter`, `Token::surface` and
/// `Token::feature`: tokenizes one run with the analyzer's dictionary,
/// returning each token's surface and raw feature string in emission order.
/// What comes back depends on the dictionary; but a surface is produced as
/// a byte-range slice of the input sentence, so it is a contiguous slice of
/// the input.
#[verifier::external_body]
fn analyze(t: &Tokenizer, s: &str) -> (r: Vec<(String, String)>)
    ensures
        forall|i: int| 0 <= i < r@.len() ==> is_slice_of((#[trigger] r@[i]).0@, s@),
{
    let mut worker = t.new_worker();
    worker.reset_sentence(s);
    worker.tokenize();
    worker.token_iter().map(|tk| (tk.surface().to_string(), tk.feature().to_string())).collect()
}

/// Runs the whole pipeline over a text: lines in order, runs in order; a
/// blank run yields exactly its dummy record, every other run is analyzed
/// and its tokens mapped in emission order. Whatever the analyzer returned,
/// the output is the assembly of some token sequence per word run, and
/// every token surface is a contiguous slice of its run.
pub fn tokenize_lines(t: &Tokenizer, s: &str) -> (r: Vec<Record>)
    ensures
        exists|toks: Seq<Seq<(Seq<char>, Seq<char>)>>|
            #![auto]
            {
                &&& toks.len() == spec_word_runs(s@).len()
                &&& (forall|i: int, j: int|
                    0 <= i < toks.len() && 0 <= j < toks[i].len() ==> is_slice_of(
                        (#[trigger] toks[i][j]).0,
                        spec_word_runs(s@)[i],
                    ))
                &&& r.deep_view() == spec_assemble(spec_steps(s@), toks)
            },
{
    let runs = word_runs(s);
    let mut analyses: Vec<Vec<(String, String)>> = Vec::new();
    let mut i: usize = 0;
    while i < runs.len()
        invariant
            i <= runs@.len(),
            runs.deep_view() == spec_word_runs(s@),
            analyses.deep_view().len() == i,
            forall|k: int, j: int|
                0 <= k < i && 0 <= j < analyses.deep_view()[k].len() ==> is_slice_of(
                    (#[trigger] analyses.deep_view()[k][j]).0,
                    spec_word_runs(s@)[k],
                ),
        decreases runs@.len() - i,
    {
        let ghost prev = analyses.deep_view();
        let toks = analyze(t, runs[i].as_str());
        let ghost tv = toks.deep_view();
        analyses.push(toks);
        proof {
            assert(analyses.deep_view() =~= prev.push(tv));
        }
        i += 1;
    }
    let out = assemble_records(s, &analyses);
    proof {
        let toks = analyses.deep_view();
        assert(toks.len() == spec_word_runs(s@).len());
        assert(out.deep_view() == spec_assemble(spec_steps(s@), toks));
    }
    out
}

} // verus!
