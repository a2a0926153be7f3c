//! Text segmentation: splits one line into maximal same-category runs,
//! where a character is either Unicode whitespace or a word character.

use vstd::prelude::*;
use vstd::seq_lib::lemma_flatten_concat;

verus! {

/// What `char::is_whitespace` returns; a function of the character alone.
pub uninterp spec fn char_is_whitespace(c: char) -> bool;

/// Relies on `char::is_whitespace` from std: classifies a character as
/// Unicode whitespace, depending on the character alone.
pub assume_specification[ char::is_whitespace ](c: char) -> (r: bool)
    ensures
        r == char_is_whitespace(c),
;

/// Classification of a character for segmentation purposes.
#[derive(Clone, Copy, PartialEq, Eq, Structural, Debug)]
pub enum Category {
    Word,
    Whitespace,
}

pub open spec fn spec_category(c: char) -> Category {
    if char_is_whitespace(c) {
        Category::Whitespace
    } else {
        Category::Word
    }
}

impl Category {
    pub fn from(c: &char) -> (r: Self)
        ensures
            r == spec_category(*c),
    {
        if c.is_whitespace() {
            Category::Whitespace
        } else {
            Category::Word
        }
    }
}

/// Every character of the run shares the category of its first character.
pub open spec fn uniform_category(r: Seq<char>) -> bool {
    forall|i: int| 0 <= i < r.len() ==> spec_category(#[trigger] r[i]) == spec_category(r[0])
}

/// The category of a non-empty run.
pub open spec fn run_category(r: Seq<char>) -> Category
    recommends
        r.len() > 0,
{
    spec_category(r[0])
}

/// Length of the maximal leading run of characters sharing the first
/// character's category.
pub open spec fn first_run_len(s: Seq<char>) -> nat
    decreases s.len(),
{
    if s.len() <= 1 {
        s.len()
    } else if spec_category(s[1]) == spec_category(s[0]) {
        (1 + first_run_len(s.drop_first())) as nat
    } else {
        1
    }
}

pub proof fn lemma_first_run_len(s: Seq<char>)
    requires
        s.len() > 0,
    ensures
        1 <= first_run_len(s) <= s.len(),
        forall|i: int| 0 <= i < first_run_len(s) ==> spec_category(#[trigger] s[i]) == spec_category(s[0]),
        first_run_len(s) < s.len() ==> spec_category(s[first_run_len(s) as int])
            != spec_category(s[0]),
    decreases s.len(),
{
    if s.len() > 1 && spec_category(s[1]) == spec_category(s[0]) {
        lemma_first_run_len(s.drop_first());
        let k = first_run_len(s);
        assert forall|i: int| 0 <= i < k implies spec_category(#[trigger] s[i]) == spec_category(s[0]) by {
            if i >= 1 {
                assert(s.drop_first()[i - 1] == s[i]);
            }
        }
        if k < s.len() {
            assert(s.drop_first()[k - 1] == s[k as int]);
        }
    }
}

/// `first_run_len` is the only cut obeying uniformity up to the cut and a
/// category change (or the end) at the cut.
pub proof fn lemma_first_run_len_unique(s: Seq<char>, k: int)
    requires
        s.len() > 0,
        1 <= k <= s.len(),
        forall|i: int| 0 <= i < k ==> spec_category(#[trigger] s[i]) == spec_category(s[0]),
        k < s.len() ==> spec_category(s[k]) != spec_category(s[0]),
    ensures
        first_run_len(s) == k,
{
    lemma_first_run_len(s);
    let f = first_run_len(s) as int;
    if f < k {
        assert(spec_category(s[f]) == spec_category(s[0]));
    }
    if k < f {
        assert(spec_category(s[k]) == spec_category(s[0]));
    }
}

/// The segmentation of a line: maximal same-category runs, left to right.
pub open spec fn spec_runs(s: Seq<char>) -> Seq<Seq<char>>
    decreases s.len(),
    via spec_runs_decreases
{
    if s.len() == 0 {
        Seq::empty()
    } else {
        seq![s.take(first_run_len(s) as int)] + spec_runs(s.skip(first_run_len(s) as int))
    }
}

#[via_fn]
proof fn spec_runs_decreases(s: Seq<char>) {
    if s.len() > 0 {
        lemma_first_run_len(s);
    }
}

/// Soundness of the segmentation: concatenating the runs in order restores
/// the input exactly, no run is empty, every run is uniform in category,
/// and adjacent runs never share a category.
#[verifier::rlimit(100)]
pub proof fn lemma_runs_props(s: Seq<char>)
    ensures
        spec_runs(s).flatten() == s,
        forall|i: int| 0 <= i < spec_runs(s).len() ==> (#[trigger] spec_runs(s)[i]).len() > 0,
        forall|i: int| 0 <= i < spec_runs(s).len() ==> uniform_category(#[trigger] spec_runs(s)[i]),
        forall|i: int|
            0 <= i && i + 1 < spec_runs(s).len() ==> run_category(#[trigger] spec_runs(s)[i])
                != run_category(spec_runs(s)[i + 1]),
    decreases s.len(),
{
    if s.len() == 0 {
        assert(spec_runs(s).flatten() =~= s);
    } else {
        lemma_first_run_len(s);
        let k = first_run_len(s) as int;
        let head = s.take(k);
        let tail = s.skip(k);
        lemma_runs_props(tail);
        lemma_flatten_concat(seq![head], spec_runs(tail));
        seq![head].lemma_flatten_singleton();
        assert(spec_runs(s).flatten() =~= s);
        let rs = spec_runs(s);
        assert(rs == seq![head] + spec_runs(tail));
        assert(rs[0] == head);
        assert(forall|i: int| 1 <= i < rs.len() ==> rs[i] == spec_runs(tail)[i - 1]);
        assert forall|i: int| 0 <= i < rs.len() implies (#[trigger] rs[i]).len() > 0 by {
            if i > 0 {
                assert(rs[i] == spec_runs(tail)[i - 1]);
            }
        }
        assert forall|i: int| 0 <= i < rs.len() implies uniform_category(#[trigger] rs[i]) by {
            if i == 0 {
                assert forall|j: int| 0 <= j < head.len() implies spec_category(#[trigger] head[j])
                    == spec_category(head[0]) by {
                    assert(head[j] == s[j]);
                }
            } else {
                assert(rs[i] == spec_runs(tail)[i - 1]);
            }
        }
        assert forall|i: int| 0 <= i && i + 1 < rs.len() implies run_category(#[trigger] rs[i])
            != run_category(rs[i + 1]) by {
            if i == 0 {
                if rs.len() >= 2 {
                    // the second run starts at the category break
                    assert(rs[1] == spec_runs(tail)[0]);
                    assert(k < s.len());
                    assert(spec_runs(tail)[0] == tail.take(first_run_len(tail) as int));
                    lemma_first_run_len(tail);
                    assert(spec_runs(tail)[0][0] == tail[0]);
                    assert(tail[0] == s[k]);
                    assert(head[0] == s[0]);
                }
            } else {
                assert(rs.len() == 1 + spec_runs(tail).len());
                assert((seq![head] + spec_runs(tail))[i] == spec_runs(tail)[i - 1]);
                assert((seq![head] + spec_runs(tail))[i + 1] == spec_runs(tail)[i]);
            }
        }
    }
}

/// Splits a line into its maximal same-category runs, in order.
/// The four trailing clauses state segmentation soundness outright:
/// the runs concatenate back to the input, none is empty, each is uniform
/// in category, and adjacent runs differ in category.
#[verifier::rlimit(50)]
pub fn split_words(s: &str) -> (r: Vec<String>)
    ensures
        r.deep_view() == spec_runs(s@),
        r.deep_view().flatten() == s@,
        forall|i: int| 0 <= i < r@.len() ==> (#[trigger] r.deep_view()[i]).len() > 0,
        forall|i: int| 0 <= i < r@.len() ==> uniform_category(#[trigger] r.deep_view()[i]),
        forall|i: int|
            0 <= i && i + 1 < r@.len() ==> run_category(#[trigger] r.deep_view()[i]) != run_category(
                r.deep_view()[i + 1],
            ),
{
    let n = s.unicode_len();
    let mut out: Vec<String> = Vec::new();
    let mut start: usize = 0;
    proof {
        assert(out.deep_view() =~= Seq::<Seq<char>>::empty());
        assert(s@.skip(0) =~= s@);
        assert(out.deep_view() + spec_runs(s@) =~= spec_runs(s@));
    }
    while start < n
        invariant
            n == s@.len(),
            start <= n,
            spec_runs(s@) == out.deep_view() + spec_runs(s@.skip(start as int)),
        decreases n - start,
    {
        let c0 = s.get_char(start);
        let cat0 = Category::from(&c0);
        let mut end: usize = start + 1;
        loop
            invariant_except_break
                n == s@.len(),
                start < end <= n,
                c0 == s@[start as int],
                cat0 == spec_category(c0),
                forall|i: int|
                    start <= i < end ==> spec_category(s@[i]) == spec_category(s@[start as int]),
            ensures
                start < end <= n,
                forall|i: int|
                    start <= i < end ==> spec_category(s@[i]) == spec_category(s@[start as int]),
                end == n || spec_category(s@[end as int]) != spec_category(s@[start as int]),
            decreases n - end,
        {
            if end >= n {
                break ;
            }
            let c = s.get_char(end);
            if Category::from(&c) != cat0 {
                break ;
            }
            end += 1;
        }
        let run = s.substring_char(start, end).to_owned();
        let ghost runv = run@;
        let ghost prev = out.deep_view();
        proof {
            let tail = s@.skip(start as int);
            assert forall|i: int| 0 <= i < (end - start) implies spec_category(#[trigger] tail[i])
                == spec_category(tail[0]) by {
                assert(tail[i] == s@[start + i]);
                assert(tail[0] == s@[start as int]);
            }
            if end < n {
                assert(tail[end - start] == s@[end as int]);
            }
            lemma_first_run_len_unique(tail, end - start);
            assert(runv =~= tail.take(end - start));
            assert(tail.skip(end - start) =~= s@.skip(end as int));
            assert(spec_runs(tail) == seq![runv] + spec_runs(s@.skip(end as int)));
        }
        out.push(run);
        proof {
            assert(out.deep_view() =~= prev + seq![runv]);
            assert(prev + (seq![runv] + spec_runs(s@.skip(end as int))) =~= (prev + seq![runv])
                + spec_runs(s@.skip(end as int)));
        }
        start = end;
    }
    proof {
        assert(s@.skip(n as int) =~= Seq::<char>::empty());
        assert(out.deep_view() + spec_runs(s@.skip(n as int)) =~= out.deep_view());
        lemma_runs_props(s@);
    }
    out
}

} // verus!
