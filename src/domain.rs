//! Fully qualified domain names as validated label sequences.

use vstd::prelude::*;

verus! {

/// The label that `kubizone_common` makes of the text `s`, if it accepts it.
pub uninterp spec fn segment_of(s: Seq<char>) -> Option<Seq<char>>;

/// Relies on `kubizone_common::DomainSegment::try_from`: it validates one
/// label and yields its normalised text; the empty string is refused.
#[verifier::external_body]
fn parse_segment(s: &str) -> (r: Option<String>)
    ensures
        r.is_some() <==> segment_of(s@).is_some(),
        r.is_some() ==> segment_of(s@) == Some(r.unwrap()@),
        s@.len() == 0 ==> r.is_none(),
{
    kubizone_common::DomainSegment::try_from(s).ok().map(|seg| seg.as_ref().to_string())
}

/// The pieces of `s` between the separator dots, from position `start` on,
/// where the scan has reached position `i`.
pub open spec fn pieces_from(s: Seq<char>, start: int, i: int) -> Seq<Seq<char>>
    decreases s.len() - i,
{
    if i >= s.len() {
        seq![s.subrange(start, s.len() as int)]
    } else if s[i] == '.' {
        seq![s.subrange(start, i)] + pieces_from(s, i + 1, i + 1)
    } else {
        pieces_from(s, start, i + 1)
    }
}

/// The dot-separated pieces of `s` (an empty text is one empty piece).
pub open spec fn split_on_dot(s: Seq<char>) -> Seq<Seq<char>> {
    pieces_from(s, 0, 0)
}

/// Every piece validated as a label, or `None` if one of them is refused.
pub open spec fn parse_all(parts: Seq<Seq<char>>) -> Option<Seq<Seq<char>>>
    decreases parts.len(),
{
    if parts.len() == 0 {
        Some(Seq::empty())
    } else {
        match (segment_of(parts[0]), parse_all(parts.drop_first())) {
            (Some(a), Some(rest)) => Some(seq![a] + rest),
            _ => None,
        }
    }
}

/// The labels of a dot-separated name, or `None` if a label is invalid.
pub open spec fn labels_of(name: Seq<char>) -> Option<Seq<Seq<char>>> {
    parse_all(split_on_dot(name))
}

/// The text of a name: each label followed by a dot.
pub open spec fn fqdn_text(labels: Seq<Seq<char>>) -> Seq<char>
    decreases labels.len(),
{
    if labels.len() == 0 {
        Seq::empty()
    } else {
        fqdn_text(labels.drop_last()) + labels.last() + seq!['.']
    }
}

proof fn lemma_parse_all_append(a: Seq<Seq<char>>, b: Seq<Seq<char>>)
    ensures
        parse_all(a + b) == (match (parse_all(a), parse_all(b)) {
            (Some(x), Some(y)) => Some(x + y),
            _ => None::<Seq<Seq<char>>>,
        }),
    decreases a.len(),
{
    if a.len() == 0 {
        assert(a + b =~= b);
        if let Some(y) = parse_all(b) {
            assert(Seq::<Seq<char>>::empty() + y =~= y);
        }
    } else {
        assert((a + b).drop_first() =~= a.drop_first() + b);
        lemma_parse_all_append(a.drop_first(), b);
        if let (Some(x), Some(y)) = (parse_all(a), parse_all(b)) {
            let h = segment_of(a[0]).unwrap();
            let xr = parse_all(a.drop_first()).unwrap();
            assert(seq![h] + (xr + y) =~= (seq![h] + xr) + y);
        }
    }
}

/// A fully qualified domain name: an ordered sequence of validated labels.
#[derive(Debug, Clone)]
pub struct Fqdn {
    pub labels: Vec<String>,
}

impl View for Fqdn {
    type V = Seq<Seq<char>>;

    open spec fn view(&self) -> Seq<Seq<char>> {
        self.labels@.map_values(|l: String| l@)
    }
}

impl Fqdn {
    /// Parses a dot-separated name; every label must be valid.
    pub fn parse(name: &str) -> (r: Result<Fqdn, NameError>)
        ensures
            r is Ok <==> labels_of(name@).is_some(),
            r matches Ok(f) ==> labels_of(name@) == Some(f@),
    {
        let n = name.unicode_len();
        let mut labels: Vec<String> = Vec::new();
        let ghost mut done: Seq<Seq<char>> = Seq::empty();
        let mut start: usize = 0;
        let mut i: usize = 0;
        while i < n
            invariant
                n == name@.len(),
                start <= i <= n,
                split_on_dot(name@) == done + pieces_from(name@, start as int, i as int),
                parse_all(done) == Some(labels@.map_values(|l: String| l@)),
            decreases n - i,
        {
            if name.get_char(i) == '.' {
                let part = name.substring_char(start, i);
                let ghost rest = pieces_from(name@, i + 1, i + 1);
                proof {
                    assert(split_on_dot(name@) == (done + seq![part@]) + rest);
                }
                match Self::push_label(&mut labels, Ghost(done), part) {
                    Ok(()) => {},
                    Err(e) => {
                        proof {
                            lemma_parse_all_append(done + seq![part@], rest);
                        }
                        return Err(e);
                    },
                }
                proof {
                    done = done + seq![part@];
                }
                start = i + 1;
            }
            i = i + 1;
        }
        let part = name.substring_char(start, n);
        assert(split_on_dot(name@) == done + seq![part@]);
        match Self::push_label(&mut labels, Ghost(done), part) {
            Ok(()) => Ok(Fqdn { labels }),
            Err(e) => Err(e),
        }
    }

    /// Validates `part` and appends its label; `done` are the pieces read so far.
    fn push_label(labels: &mut Vec<String>, done: Ghost<Seq<Seq<char>>>, part: &str) -> (r: Result<(), NameError>)
        requires
            parse_all(done@) == Some(old(labels)@.map_values(|l: String| l@)),
        ensures
            r is Ok ==> parse_all(done@ + seq![part@]) == Some(final(labels)@.map_values(|l: String| l@)),
            r is Err ==> parse_all(done@ + seq![part@]) is None,
            r is Err ==> segment_of(part@) is None,
    {
        let ghost before = labels@.map_values(|l: String| l@);
        proof {
            lemma_parse_all_append(done@, seq![part@]);
            reveal_with_fuel(parse_all, 2);
            assert(seq![part@].drop_first() =~= Seq::<Seq<char>>::empty());
        }
        match parse_segment(part) {
            Some(label) => {
                proof {
                    assert(seq![label@] + Seq::<Seq<char>>::empty() =~= seq![label@]);
                }
                labels.push(label);
                assert(labels@.map_values(|l: String| l@) =~= before + seq![label@]);
                Ok(())
            },
            None => Err(NameError::InvalidLabel),
        }
    }
}

impl Fqdn {
    /// Label-sequence equality.
    pub fn same_as(&self, other: &Fqdn) -> (r: bool)
        ensures
            r == (self@ == other@),
    {
        if self.labels.len() != other.labels.len() {
            assert(self@.len() != other@.len());
            return false;
        }
        let mut i: usize = 0;
        while i < self.labels.len()
            invariant
                self.labels.len() == other.labels.len(),
                i <= self.labels.len(),
                forall|k: int| 0 <= k < i ==> self.labels@[k]@ == other.labels@[k]@,
            decreases self.labels.len() - i,
        {
            if self.labels[i] != other.labels[i] {
                assert(self@[i as int] != other@[i as int]);
                return false;
            }
            i = i + 1;
        }
        assert(self@ =~= other@);
        true
    }

    /// The name as text, each label followed by a dot (`a.example.com.`).
    pub fn to_text(&self) -> (r: String)
        ensures
            r@ == fqdn_text(self@),
    {
        let mut out = String::new();
        let mut i: usize = 0;
        while i < self.labels.len()
            invariant
                i <= self.labels.len(),
                out@ == fqdn_text(self@.subrange(0, i as int)),
            decreases self.labels.len() - i,
        {
            proof {
                let next = self@.subrange(0, i + 1);
                assert(next.drop_last() =~= self@.subrange(0, i as int));
                reveal_strlit(".");
            }
            out.append(self.labels[i].as_str());
            out.append(".");
            i = i + 1;
        }
        assert(self@.subrange(0, self.labels.len() as int) =~= self@);
        out
    }
}

/// A name that could not be read as a domain name.
#[derive(Debug, Clone, Copy, PartialEq, Eq, Structural)]
pub enum NameError {
    /// One of the dot-separated labels is empty or not a valid label.
    InvalidLabel,
}

} // verus!
