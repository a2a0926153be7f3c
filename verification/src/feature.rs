//! Feature mapping: converts an analyzer token's raw feature string into a
//! fixed-schema record. The raw string is split on commas, every piece is
//! split again on dashes, and the flattened sub-fields are bound in order to
//! up to twelve fixed names; a `*` sub-field stands for "no value".

use vstd::prelude::*;

verus! {

/// Splitting a character sequence at every delimiter occurrence, as
/// `str::split` does: `n` delimiters yield `n + 1` pieces, possibly empty.
pub open spec fn spec_split(s: Seq<char>, d: char) -> Seq<Seq<char>>
    decreases s.len(),
{
    if s.len() == 0 {
        seq![Seq::<char>::empty()]
    } else if s[0] == d {
        seq![Seq::<char>::empty()] + spec_split(s.drop_first(), d)
    } else {
        let rest = spec_split(s.drop_first(), d);
        seq![seq![s[0]] + rest[0]] + rest.drop_first()
    }
}

pub proof fn lemma_split_len(s: Seq<char>, d: char)
    ensures
        spec_split(s, d).len() >= 1,
    decreases s.len(),
{
    if s.len() > 0 {
        lemma_split_len(s.drop_first(), d);
    }
}

/// If no delimiter occurs before position `i`, the split either closes its
/// first piece at a delimiter found at `i`, or ends with the whole rest.
pub proof fn lemma_split_at_delim(s: Seq<char>, d: char, i: int)
    requires
        0 <= i <= s.len(),
        forall|j: int| 0 <= j < i ==> s[j] != d,
    ensures
        i < s.len() && s[i] == d ==> spec_split(s, d) == seq![s.take(i)] + spec_split(
            s.skip(i + 1),
            d,
        ),
        i == s.len() ==> spec_split(s, d) == seq![s],
    decreases i,
{
    if i == 0 {
        if s.len() > 0 && s[0] == d {
            assert(s.take(0) =~= Seq::<char>::empty());
            assert(s.skip(1) =~= s.drop_first());
        }
        if s.len() == 0 {
            assert(spec_split(s, d) =~~= seq![s]);
        }
    } else {
        let t = s.drop_first();
        lemma_split_len(t, d);
        assert forall|j: int| 0 <= j < i - 1 implies t[j] != d by {
            assert(t[j] == s[j + 1]);
        }
        lemma_split_at_delim(t, d, i - 1);
        let rest = spec_split(t, d);
        assert(s[0] != d);
        if i < s.len() && s[i] == d {
            assert(t[i - 1] == s[i]);
            assert(rest == seq![t.take(i - 1)] + spec_split(t.skip(i), d));
            assert(rest[0] == t.take(i - 1));
            assert(seq![s[0]] + t.take(i - 1) =~= s.take(i));
            assert(rest.drop_first() =~= spec_split(t.skip(i), d));
            assert(t.skip(i) =~= s.skip(i + 1));
            assert(spec_split(s, d) =~= seq![s.take(i)] + spec_split(s.skip(i + 1), d));
        }
        if i == s.len() {
            assert(rest == seq![t]);
            assert(rest[0] == t);
            assert(seq![s[0]] + t =~= s);
            assert(rest.drop_first() =~= Seq::<Seq<char>>::empty());
            assert(spec_split(s, d) =~= seq![s]);
        }
    }
}

/// Splits a string at every occurrence of a delimiter character, keeping
/// empty pieces, exactly as `spec_split` describes.
pub fn split_on(s: &str, d: char) -> (r: Vec<String>)
    ensures
        r.deep_view() == spec_split(s@, d),
{
    let n = s.unicode_len();
    let mut out: Vec<String> = Vec::new();
    let mut start: usize = 0;
    let mut i: usize = 0;
    proof {
        assert(out.deep_view() =~= Seq::<Seq<char>>::empty());
        assert(s@.skip(0) =~= s@);
    }
    while i < n
        invariant
            n == s@.len(),
            start <= i <= n,
            spec_split(s@, d) == out.deep_view() + spec_split(s@.skip(start as int), d),
            forall|j: int| start <= j < i ==> s@[j] != d,
        decreases n - i,
    {
        let c = s.get_char(i);
        if c == d {
            let piece = s.substring_char(start, i).to_owned();
            let ghost piecev = piece@;
            let ghost prev = out.deep_view();
            proof {
                let tail = s@.skip(start as int);
                assert forall|j: int| 0 <= j < i - start implies tail[j] != d by {
                    assert(tail[j] == s@[start + j]);
                }
                assert(tail[i - start] == s@[i as int]);
                lemma_split_at_delim(tail, d, i - start);
                assert(tail.take(i - start) =~= piecev);
                assert(tail.skip(i - start + 1) =~= s@.skip(i + 1));
            }
            out.push(piece);
            proof {
                assert(out.deep_view() =~= prev + seq![piecev]);
                assert(prev + (seq![piecev] + spec_split(s@.skip(i + 1), d)) =~= (prev
                    + seq![piecev]) + spec_split(s@.skip(i + 1), d));
            }
            start = i + 1;
        }
        i += 1;
    }
    let piece = s.substring_char(start, n).to_owned();
    let ghost piecev = piece@;
    let ghost prev = out.deep_view();
    proof {
        let tail = s@.skip(start as int);
        assert forall|j: int| 0 <= j < tail.len() implies tail[j] != d by {
            assert(tail[j] == s@[start + j]);
        }
        lemma_split_at_delim(tail, d, tail.len() as int);
        assert(tail.take(n - start) =~= piecev);
        assert(piecev =~= tail);
    }
    out.push(piece);
    proof {
        assert(out.deep_view() =~= prev + seq![piecev]);
    }
    out
}

/// The flat, ordered sub-field list of a raw feature string: comma pieces
/// first, each comma piece further split on dashes, concatenated in order.
pub open spec fn spec_subfields(f: Seq<char>) -> Seq<Seq<char>> {
    spec_split(f, ',').map_values(|x: Seq<char>| spec_split(x, '-')).flatten()
}

/// Splits a raw feature string on commas, then dashes, and flattens.
pub fn subfields(f: &str) -> (r: Vec<String>)
    ensures
        r.deep_view() == spec_subfields(f@),
{
    let fields = split_on(f, ',');
    let ghost mapped = fields.deep_view().map_values(|x: Seq<char>| spec_split(x, '-'));
    let mut out: Vec<String> = Vec::new();
    let mut i: usize = 0;
    proof {
        assert(mapped.take(0) =~= Seq::<Seq<Seq<char>>>::empty());
        assert(mapped.take(0).flatten() =~= Seq::<Seq<char>>::empty());
        assert(out.deep_view() =~= Seq::<Seq<char>>::empty());
    }
    while i < fields.len()
        invariant
            i <= fields@.len(),
            mapped == fields.deep_view().map_values(|x: Seq<char>| spec_split(x, '-')),
            out.deep_view() == mapped.take(i as int).flatten(),
        decreases fields@.len() - i,
    {
        let parts = split_on(fields[i].as_str(), '-');
        let ghost base = out.deep_view();
        let mut j: usize = 0;
        proof {
            assert(base + parts.deep_view().take(0) =~= base);
        }
        while j < parts.len()
            invariant
                j <= parts@.len(),
                out.deep_view() == base + parts.deep_view().take(j as int),
            decreases parts@.len() - j,
        {
            let ghost prev = out.deep_view();
            let ghost pv = parts@[j as int]@;
            out.push(parts[j].clone());
            proof {
                assert(out.deep_view() =~= prev.push(pv));
                assert(parts.deep_view().take(j + 1) =~= parts.deep_view().take(j as int).push(
                    pv,
                ));
                assert(base + parts.deep_view().take(j as int).push(pv) =~= (base
                    + parts.deep_view().take(j as int)).push(pv));
            }
            j += 1;
        }
        proof {
            assert(parts.deep_view().take(parts@.len() as int) =~= parts.deep_view());
            assert(parts.deep_view() == mapped[i as int]);
            assert(mapped.take(i + 1) =~= mapped.take(i as int).push(mapped[i as int]));
            mapped.take(i as int).lemma_flatten_push(mapped[i as int]);
        }
        i += 1;
    }
    proof {
        assert(mapped.take(fields@.len() as int) =~= mapped);
    }
    out
}

/// The twelve field names of a word record, in their fixed order.
pub open spec fn spec_field_names() -> Seq<Seq<char>> {
    seq![
        "pos"@,
        "pos2"@,
        "pos3"@,
        "pos4"@,
        "inflection_type"@,
        "inflection_form"@,
        "lemma_reading"@,
        "lemma"@,
        "expression"@,
        "reading"@,
        "expression_base"@,
        "reading_base"@,
    ]
}

/// Builds the twelve field names of a word record, in their fixed order.
pub fn field_names() -> (r: Vec<String>)
    ensures
        r.deep_view() == spec_field_names(),
        r@.len() == 12,
{
    let mut v: Vec<String> = Vec::new();
    v.push(String::from_str("pos"));
    v.push(String::from_str("pos2"));
    v.push(String::from_str("pos3"));
    v.push(String::from_str("pos4"));
    v.push(String::from_str("inflection_type"));
    v.push(String::from_str("inflection_form"));
    v.push(String::from_str("lemma_reading"));
    v.push(String::from_str("lemma"));
    v.push(String::from_str("expression"));
    v.push(String::from_str("reading"));
    v.push(String::from_str("expression_base"));
    v.push(String::from_str("reading_base"));
    proof {
        assert(v.deep_view() =~= spec_field_names());
    }
    v
}

/// One output record: a word record pairs a token's surface with the named
/// sub-fields of its feature string; a dummy record stands for a run that
/// was not analyzed and carries only its source text.
#[derive(Debug, PartialEq, Eq)]
pub enum Record {
    Word { source: String, fields: Vec<(String, Option<String>)> },
    Dummy { source: String },
}

/// The mathematical shape of a record.
pub enum RecordV {
    Word { source: Seq<char>, fields: Seq<(Seq<char>, Option<Seq<char>>)> },
    Dummy { source: Seq<char> },
}

impl View for Record {
    type V = RecordV;

    open spec fn view(&self) -> RecordV {
        match self {
            Record::Word { source, fields } => RecordV::Word {
                source: source@,
                fields: fields.deep_view(),
            },
            Record::Dummy { source } => RecordV::Dummy { source: source@ },
        }
    }
}

impl DeepView for Record {
    type V = RecordV;

    open spec fn deep_view(&self) -> RecordV {
        self@
    }
}

/// The named fields of a word record with raw feature string `f`: the first
/// sub-fields, at most twelve, bound to the fixed names in order; a literal
/// `*` sub-field is mapped to no value.
pub open spec fn spec_mapped_fields(f: Seq<char>) -> Seq<(Seq<char>, Option<Seq<char>>)> {
    let subs = spec_subfields(f);
    let n: int = if subs.len() < 12 { subs.len() as int } else { 12 };
    Seq::new(
        n as nat,
        |i: int|
            (
                spec_field_names()[i],
                if subs[i] == "*"@ {
                    None
                } else {
                    Some(subs[i])
                },
            ),
    )
}

/// The word record produced for one analyzer token.
pub open spec fn spec_token_record(surface: Seq<char>, feature: Seq<char>) -> RecordV {
    RecordV::Word { source: surface, fields: spec_mapped_fields(feature) }
}

fn is_wildcard(s: &String) -> (r: bool)
    ensures
        r == (s@ == "*"@),
{
    proof {
        reveal_strlit("*");
    }
    if s.as_str().unicode_len() == 1 {
        let c = s.as_str().get_char(0);
        if c == '*' {
            proof {
                assert(s@ =~= "*"@);
            }
            true
        } else {
            false
        }
    } else {
        false
    }
}

/// Maps one analyzer token to its word record: `source` is the token's
/// surface, and the sub-fields of its raw feature string are bound to the
/// fixed names in order.
pub fn map_token(surface: &str, feature: &str) -> (r: Record)
    ensures
        r@ == spec_token_record(surface@, feature@),
{
    let subs = subfields(feature);
    let names = field_names();
    let count: usize = if subs.len() < 12 {
        subs.len()
    } else {
        12
    };
    let mut fields: Vec<(String, Option<String>)> = Vec::new();
    let mut i: usize = 0;
    proof {
        assert(fields.deep_view() =~= spec_mapped_fields(feature@).take(0));
    }
    while i < count
        invariant
            count == (if subs.deep_view().len() < 12 {
                subs.deep_view().len() as int
            } else {
                12
            }),
            i <= count,
            subs@.len() == subs.deep_view().len(),
            names@.len() == 12,
            subs.deep_view() == spec_subfields(feature@),
            names.deep_view() == spec_field_names(),
            fields.deep_view() == spec_mapped_fields(feature@).take(i as int),
        decreases count - i,
    {
        let name = names[i].clone();
        let v = subs[i].clone();
        let ghost prev = fields.deep_view();
        let ghost entry = spec_mapped_fields(feature@)[i as int];
        if is_wildcard(&v) {
            fields.push((name, None));
        } else {
            fields.push((name, Some(v)));
        }
        proof {
            assert(fields.deep_view() =~= prev.push(entry));
            assert(spec_mapped_fields(feature@).take(i + 1) =~= prev.push(entry));
        }
        i += 1;
    }
    proof {
        assert(spec_mapped_fields(feature@).take(count as int) =~= spec_mapped_fields(feature@));
    }
    Record::Word { source: surface.to_owned(), fields }
}

/// The record emitted for a run that is not analyzed: only its source text.
pub fn generate_dummy_data(s: &str) -> (r: Record)
    ensures
        r@ == (RecordV::Dummy { source: s@ }),
{
    Record::Dummy { source: s.to_owned() }
}

} // verus!
