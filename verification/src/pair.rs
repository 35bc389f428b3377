//! Currency pairs, their keys, and the format of the pair list.
//!
//! The pair list is a text with one pair to a line, written `BASE->QUOTE`.
//! A line without `->` is passed over.  Of a line with `->`, what stands
//! before the first `->` is the base and what stands between it and the next
//! `->` (or the end of the line) is the quote, both without the white space
//! around them.

use crate::text::{chars_of, trim, trim_bounds};
use vstd::prelude::*;
use vstd::string::*;

verus! {

/// A currency pair: the rate wanted is the price of one unit of `base` in
/// units of `quote`.
#[derive(Debug)]
pub struct Pair {
    pub base: String,
    pub quote: String,
}

/// A pair as a mathematical value.
pub struct PairView {
    pub base: Seq<char>,
    pub quote: Seq<char>,
}

/// The key under which the pair `base`, `quote` is looked up: the two codes
/// with `_` between them.
pub open spec fn pair_key(base: Seq<char>, quote: Seq<char>) -> Seq<char> {
    base + seq!['_'] + quote
}

impl PairView {
    pub open spec fn key(self) -> Seq<char> {
        pair_key(self.base, self.quote)
    }

    /// A pair names two currencies: neither code is empty.
    pub open spec fn well_formed(self) -> bool {
        self.base.len() > 0 && self.quote.len() > 0
    }
}

impl View for Pair {
    type V = PairView;

    open spec fn view(&self) -> PairView {
        PairView { base: self.base@, quote: self.quote@ }
    }
}

/// The views of a list of pairs, in order.
pub open spec fn pair_views(pairs: Seq<Pair>) -> Seq<PairView> {
    Seq::new(pairs.len(), |i: int| pairs[i]@)
}

impl Pair {
    pub fn new(base: String, quote: String) -> (pair: Pair)
        ensures
            pair@ == (PairView { base: base@, quote: quote@ }),
    {
        Pair { base, quote }
    }

    /// The key of the pair.
    pub fn pair_id(&self) -> (key: String)
        ensures
            key@ == self@.key(),
    {
        proof {
            reveal_strlit("_");
            assert("_"@ =~= seq!['_']);
        }
        let mut key = self.base.clone();
        key.append("_");
        key.append(self.quote.as_str());
        key
    }

    pub fn is_well_formed(&self) -> (ok: bool)
        ensures
            ok == self@.well_formed(),
    {
        !self.base.as_str().is_empty() && !self.quote.as_str().is_empty()
    }
}

/// Whether `->` stands at index `i` of `s`.
pub open spec fn arrow_at(s: Seq<char>, i: int) -> bool {
    0 <= i && i + 1 < s.len() && s[i] == '-' && s[i + 1] == '>'
}

/// Whether the first `->` of `s` stands at index `i`.
pub open spec fn first_arrow(s: Seq<char>, i: int) -> bool {
    arrow_at(s, i) && forall|j: int| 0 <= j < i ==> !arrow_at(s, j)
}

/// The index of the first `->` of `s`.
pub open spec fn find_arrow(s: Seq<char>) -> Option<int> {
    if exists|i: int| first_arrow(s, i) {
        Some(choose|i: int| first_arrow(s, i))
    } else {
        None
    }
}

/// Whether the first line break of `s` stands at index `i`.
pub open spec fn first_newline(s: Seq<char>, i: int) -> bool {
    0 <= i < s.len() && s[i] == '\n' && forall|j: int| 0 <= j < i ==> s[j] != '\n'
}

/// The length of the first line of `s`: the number of characters before its
/// first line break, or all of them.
pub open spec fn line_len(s: Seq<char>) -> int {
    if exists|i: int| first_newline(s, i) {
        choose|i: int| first_newline(s, i)
    } else {
        s.len() as int
    }
}

/// The pair that one line of the list stands for, if it stands for one.
pub open spec fn pair_of_line(line: Seq<char>) -> Option<PairView> {
    match find_arrow(line) {
        None => None,
        Some(i) => {
            let rest = line.skip(i + 2);
            let quote = match find_arrow(rest) {
                Some(j) => rest.take(j),
                None => rest,
            };
            Some(PairView { base: trim(line.take(i)), quote: trim(quote) })
        },
    }
}

/// The pairs that a pair list holds, in the order of its lines.
pub open spec fn listed_pairs(text: Seq<char>) -> Seq<PairView>
    decreases text.len(),
{
    let n = line_len(text);
    let head = match pair_of_line(text.take(n)) {
        Some(pair) => seq![pair],
        None => seq![],
    };
    if 0 <= n < text.len() {
        head + listed_pairs(text.skip(n + 1))
    } else {
        head
    }
}

proof fn lemma_find_arrow_is(s: Seq<char>, i: int)
    requires
        first_arrow(s, i),
    ensures
        find_arrow(s) == Some(i),
{
    let k = choose|k: int| first_arrow(s, k);
    assert(k == i) by {
        if k < i {
            assert(!arrow_at(s, k));
        } else if i < k {
            assert(!arrow_at(s, i));
        }
    }
}

proof fn lemma_find_arrow_none(s: Seq<char>)
    requires
        forall|j: int| !arrow_at(s, j),
    ensures
        find_arrow(s) is None,
{
}

proof fn lemma_line_len_is(s: Seq<char>, i: int)
    requires
        first_newline(s, i) || (i == s.len() && forall|j: int| 0 <= j < i ==> s[j] != '\n'),
    ensures
        line_len(s) == i,
{
    if exists|k: int| first_newline(s, k) {
        let k = choose|k: int| first_newline(s, k);
        if k < i {
            assert(s[k] == '\n');
        } else if i < k {
            assert(s[i] != '\n');
        }
    }
}

/// The index of the first `->` within `chars[from..to]`.
fn find_arrow_in(chars: &Vec<char>, from: usize, to: usize) -> (found: Option<usize>)
    requires
        from <= to <= chars.len(),
    ensures
        match found {
            Some(i) => from <= i && i + 2 <= to && find_arrow(
                chars@.subrange(from as int, to as int),
            ) == Some(i - from),
            None => find_arrow(chars@.subrange(from as int, to as int)) is None,
        },
{
    let ghost s = chars@.subrange(from as int, to as int);
    let mut i = from;
    while to - i >= 2
        invariant
            from <= i <= to <= chars.len(),
            s == chars@.subrange(from as int, to as int),
            forall|j: int| 0 <= j < i - from ==> !arrow_at(s, j),
        decreases to - i,
    {
        if chars[i] == '-' && chars[i + 1] == '>' {
            proof {
                assert(arrow_at(s, i - from));
                lemma_find_arrow_is(s, i - from);
            }
            return Some(i);
        }
        assert(!arrow_at(s, i - from));
        i += 1;
    }
    proof {
        assert forall|j: int| !arrow_at(s, j) by {}
        lemma_find_arrow_none(s);
    }
    None
}

/// The end of the line of `chars` that starts at `from`.
fn find_line_end(chars: &Vec<char>, from: usize) -> (end: usize)
    requires
        from <= chars.len(),
    ensures
        from <= end <= chars.len(),
        end - from == line_len(chars@.skip(from as int)),
{
    let ghost s = chars@.skip(from as int);
    let mut end = from;
    while end < chars.len() && chars[end] != '\n'
        invariant
            from <= end <= chars.len(),
            s == chars@.skip(from as int),
            forall|j: int| 0 <= j < end - from ==> s[j] != '\n',
        decreases chars.len() - end,
    {
        end += 1;
    }
    proof {
        lemma_line_len_is(s, end - from);
    }
    end
}

/// The pair that the line `chars[from..to]` stands for.
fn pair_in(contents: &str, chars: &Vec<char>, from: usize, to: usize) -> (pair: Option<Pair>)
    requires
        chars@ == contents@,
        from <= to <= chars.len(),
    ensures
        match pair {
            Some(p) => pair_of_line(chars@.subrange(from as int, to as int)) == Some(p@),
            None => pair_of_line(chars@.subrange(from as int, to as int)) is None,
        },
{
    let ghost line = chars@.subrange(from as int, to as int);
    match find_arrow_in(chars, from, to) {
        None => None,
        Some(arrow) => {
            let rest_from = arrow + 2;
            let ghost rest = line.skip(arrow - from + 2);
            assert(rest =~= chars@.subrange(rest_from as int, to as int));
            let quote_to = match find_arrow_in(chars, rest_from, to) {
                Some(next) => {
                    assert(rest.take(next - rest_from) =~= chars@.subrange(
                        rest_from as int,
                        next as int,
                    ));
                    next
                },
                None => to,
            };
            assert(line.take(arrow - from) =~= chars@.subrange(from as int, arrow as int));
            let (base_from, base_to) = trim_bounds(chars, from, arrow);
            let (quote_from, quote_to) = trim_bounds(chars, rest_from, quote_to);
            let base = contents.substring_char(base_from, base_to).to_owned();
            let quote = contents.substring_char(quote_from, quote_to).to_owned();
            Some(Pair { base, quote })
        },
    }
}

/// Reads one line of a pair list.
pub fn parse_line(line: &str) -> (pair: Option<Pair>)
    ensures
        match pair {
            Some(p) => pair_of_line(line@) == Some(p@),
            None => pair_of_line(line@) is None,
        },
{
    let chars = chars_of(line);
    assert(chars@.subrange(0, chars.len() as int) =~= chars@);
    pair_in(line, &chars, 0, chars.len())
}

/// Reads a pair list: the pairs of its lines, in order.
pub fn parse_pairs(contents: &str) -> (pairs: Vec<Pair>)
    ensures
        pair_views(pairs@) == listed_pairs(contents@),
{
    let chars = chars_of(contents);
    let mut pairs: Vec<Pair> = Vec::new();
    let mut from: usize = 0;
    let mut done = false;
    assert(chars@.skip(0) =~= chars@);
    assert(pair_views(pairs@) =~= Seq::<PairView>::empty());
    while !done
        invariant
            chars@ == contents@,
            from <= chars.len(),
            !done ==> listed_pairs(contents@) == pair_views(pairs@) + listed_pairs(
                chars@.skip(from as int),
            ),
            done ==> listed_pairs(contents@) == pair_views(pairs@),
        decreases chars.len() - from + (if done { 0int } else { 1int }),
    {
        let ghost before = pairs@;
        let ghost tail = chars@.skip(from as int);
        let end = find_line_end(&chars, from);
        assert(tail.take(end - from) =~= chars@.subrange(from as int, end as int));
        let ghost head = match pair_of_line(tail.take(end - from)) {
            Some(pair) => seq![pair],
            None => seq![],
        };
        match pair_in(contents, &chars, from, end) {
            Some(pair) => {
                pairs.push(pair);
            },
            None => {},
        }
        assert(pair_views(pairs@) =~= pair_views(before) + head);
        if end < chars.len() {
            assert(tail.skip(end - from + 1) =~= chars@.skip(end + 1));
            assert(listed_pairs(tail) == head + listed_pairs(chars@.skip(end + 1)));
            from = end + 1;
        } else {
            assert(listed_pairs(tail) == head);
            done = true;
        }
    }
    pairs
}

} // verus!
