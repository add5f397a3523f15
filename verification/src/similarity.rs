//! How similar two texts are, and how similar they have to be.

use vstd::prelude::*;
use vstd::string::*;


verus! {

/// A step of a difference between two texts, in characters.
#[derive(Debug, Clone, Copy, PartialEq, Eq)]
pub enum Span {
    Equal { old_index: usize, new_index: usize, len: usize },
    Delete { old_index: usize, old_len: usize, new_index: usize },
    Insert { old_index: usize, new_index: usize, new_len: usize },
    Replace { old_index: usize, old_len: usize, new_index: usize, new_len: usize },
}

/// The steps that `similar::TextDiff::from_chars` finds from one text to the other.
pub uninterp spec fn char_diff(old_text: Seq<char>, new_text: Seq<char>) -> Seq<Span>;

/// How many characters the equal steps cover.
pub open spec fn equal_chars(spans: Seq<Span>) -> int
    decreases spans.len(),
{
    if spans.len() == 0 {
        0
    } else {
        equal_chars(spans.drop_last()) + span_equal(spans.last())
    }
}

/// How many characters a step leaves equal.
pub open spec fn span_equal(span: Span) -> int {
    match span {
        Span::Equal { len, .. } => len as int,
        _ => 0,
    }
}

/// `similar::TextDiff::from_chars`, whose steps `ops` are taken over one for one. The steps
/// depend on the two texts alone; the equal ones cover separate stretches of either text.
#[verifier::external_body]
fn diff_chars(old_text: &str, new_text: &str) -> (r: Vec<Span>)
    ensures
        r@ == char_diff(old_text@, new_text@),
        equal_chars(r@) <= old_text@.len(),
        equal_chars(r@) <= new_text@.len(),
{
    let diff = similar::TextDiff::from_chars(old_text, new_text);
    let convert = |op: &similar::DiffOp| match *op {
        similar::DiffOp::Equal { old_index, new_index, len } => Span::Equal { old_index, new_index, len },
        similar::DiffOp::Delete { old_index, old_len, new_index } => Span::Delete { old_index, old_len, new_index },
        similar::DiffOp::Insert { old_index, new_index, new_len } => Span::Insert { old_index, new_index, new_len },
        similar::DiffOp::Replace { old_index, old_len, new_index, new_len } => Span::Replace { old_index, old_len, new_index, new_len },
    };
    diff.ops().iter().map(convert).collect()
}

/// A similarity of two texts: twice the characters they share, out of the characters of both.
#[derive(Debug, Clone, Copy, PartialEq, Eq)]
pub struct Similarity {
    /// How many characters the texts share, in order.
    pub matched: usize,
    /// How many characters the first text has.
    pub old_len: usize,
    /// How many characters the second text has.
    pub new_len: usize,
}

impl Similarity {
    /// The texts share no more than either has.
    pub open spec fn wf(self) -> bool {
        self.matched <= self.old_len && self.matched <= self.new_len
    }

    /// The characters of both texts.
    pub open spec fn total(self) -> int {
        self.old_len + self.new_len
    }

    /// Whether this similarity is below the other: `2 * matched / total` is less.
    pub open spec fn below(self, other: Similarity) -> bool {
        if self.total() == 0 {
            false
        } else if other.total() == 0 {
            2 * self.matched < self.total()
        } else {
            self.matched * other.total() < other.matched * self.total()
        }
    }

    /// Whether this similarity reaches `units` parts in `UNITS`. Two empty texts are the same.
    pub open spec fn reaches(self, t: Threshold) -> bool {
        if self.total() == 0 {
            t.units <= UNITS
        } else {
            2 * self.matched * UNITS >= t.units * self.total()
        }
    }

    /// The similarity in whole per cent, halves rounded up.
    pub open spec fn percent(self) -> int {
        if self.total() == 0 {
            100
        } else {
            (400 * self.matched + self.total()) / (2 * self.total())
        }
    }
}

/// How many parts a threshold counts one in.
pub const UNITS: u64 = 1_000_000_000_000_000_000;

/// The least similarity that a fuzzy match needs, in parts of `UNITS`.
#[derive(Debug, Clone, Copy, PartialEq, Eq)]
pub struct Threshold {
    pub units: u64,
}

impl Threshold {
    /// A threshold lies between zero and one.
    pub open spec fn wf(self) -> bool {
        self.units <= UNITS
    }
}

/// The threshold of a patch that names none: 0.85.
pub const DEFAULT_THRESHOLD_UNITS: u64 = 850_000_000_000_000_000;

/// The similarity of two texts by their character difference.
pub open spec fn similarity_spec(old_text: Seq<char>, new_text: Seq<char>) -> Similarity {
    Similarity {
        matched: equal_chars(char_diff(old_text, new_text)) as usize,
        old_len: old_text.len() as usize,
        new_len: new_text.len() as usize,
    }
}

/// The similarity of two texts.
pub fn similarity(old_text: &str, new_text: &str) -> (r: Similarity)
    ensures
        r == similarity_spec(old_text@, new_text@),
        r.wf(),
{
    let spans = diff_chars(old_text, new_text);
    let old_len: usize = old_text.unicode_len();
    let new_len: usize = new_text.unicode_len();
    similarity_of_spans(&spans, old_len, new_len)
}

/// The similarity of two texts of the given sizes with the given difference.
pub fn similarity_of_spans(spans: &Vec<Span>, old_len: usize, new_len: usize) -> (r: Similarity)
    requires
        equal_chars(spans@) <= old_len,
        equal_chars(spans@) <= new_len,
    ensures
        r == (Similarity { matched: equal_chars(spans@) as usize, old_len, new_len }),
        r.wf(),
{
    let mut matched: usize = 0;
    let mut i: usize = 0;
    while i < spans.len()
        invariant
            0 <= i <= spans@.len(),
            equal_chars(spans@) <= old_len,
            matched == equal_chars(spans@.take(i as int)),
        decreases spans@.len() - i,
    {
        proof {
            lemma_equal_chars_grow(spans@, i + 1);
            assert(spans@.take(i + 1).drop_last() =~= spans@.take(i as int));
            assert(spans@.take(i + 1).last() == spans@[i as int]);
        }
        match spans[i] {
            Span::Equal { len, .. } => {
                matched += len;
            },
            _ => {},
        }
        i += 1;
    }
    assert(spans@.take(i as int) =~= spans@);
    Similarity { matched, old_len, new_len }
}

/// More steps leave no fewer characters equal.
proof fn lemma_equal_chars_grow(spans: Seq<Span>, k: int)
    requires
        0 <= k <= spans.len(),
    ensures
        0 <= equal_chars(spans.take(k)) <= equal_chars(spans),
    decreases spans.len(),
{
    if k < spans.len() {
        lemma_equal_chars_grow(spans.drop_last(), k);
        assert(spans.drop_last().take(k) =~= spans.take(k));
    } else {
        assert(spans.take(k) =~= spans);
        if spans.len() > 0 {
            lemma_equal_chars_grow(spans.drop_last(), spans.len() - 1);
            assert(spans.drop_last().take(spans.len() - 1) =~= spans.drop_last());
        }
    }
}

/// A product of two numbers that need not fit: its part above `2^32`, and the rest.
fn wide_product(a: usize, b: u128) -> (r: (u128, u128))
    requires
        b <= 0x1_ffff_ffff_ffff_fffe,
    ensures
        r.0 * 0x1_0000_0000 + r.1 == a * b,
        r.1 < 0x1_0000_0000,
{
    let big: u128 = b / 0x1_0000_0000;
    let small: u128 = b % 0x1_0000_0000;
    let x: u128 = a as u128;
    assert(x * big <= 0xffff_ffff_ffff_ffff * 0x2_0000_0000) by (nonlinear_arith)
        requires
            x <= 0xffff_ffff_ffff_ffff,
            big <= 0x2_0000_0000,
    ;
    assert(x * small <= 0xffff_ffff_ffff_ffff * 0x1_0000_0000) by (nonlinear_arith)
        requires
            x <= 0xffff_ffff_ffff_ffff,
            small <= 0x1_0000_0000,
    ;
    let high: u128 = x * big;
    let low: u128 = x * small;
    assert(a * b == high * 0x1_0000_0000 + low) by (nonlinear_arith)
        requires
            b == big * 0x1_0000_0000 + small,
            high == a * big,
            low == a * small,
    ;
    (high + low / 0x1_0000_0000, low % 0x1_0000_0000)
}

impl Similarity {
    /// Whether this similarity is below the other.
    pub fn is_below(&self, other: &Similarity) -> (r: bool)
        ensures
            r == self.below(*other),
    {
        let mine: u128 = self.old_len as u128 + self.new_len as u128;
        let theirs: u128 = other.old_len as u128 + other.new_len as u128;
        if mine == 0 {
            false
        } else if theirs == 0 {
            2 * (self.matched as u128) < mine
        } else {
            let left = wide_product(self.matched, theirs);
            let right = wide_product(other.matched, mine);
            left.0 < right.0 || (left.0 == right.0 && left.1 < right.1)
        }
    }

    /// Whether this similarity reaches the threshold.
    pub fn meets(&self, t: Threshold) -> (r: bool)
        requires
            t.wf(),
        ensures
            r == self.reaches(t),
    {
        let total: u128 = self.old_len as u128 + self.new_len as u128;
        if total == 0 {
            true
        } else {
            let m: u128 = 2 * (self.matched as u128);
            assert(m * UNITS <= 0x1_ffff_ffff_ffff_fffe * 1_000_000_000_000_000_000)
                by (nonlinear_arith)
                requires
                    m <= 0x1_ffff_ffff_ffff_fffe,
            ;
            assert(t.units * total <= 1_000_000_000_000_000_000 * 0x1_ffff_ffff_ffff_fffe)
                by (nonlinear_arith)
                requires
                    t.units <= 1_000_000_000_000_000_000,
                    total <= 0x1_ffff_ffff_ffff_fffe,
            ;
            m * (UNITS as u128) >= (t.units as u128) * total
        }
    }

    /// The similarity in whole per cent.
    pub fn in_percent(&self) -> (r: usize)
        requires
            self.wf(),
        ensures
            r == self.percent(),
            r <= 100,
    {
        let total: u128 = self.old_len as u128 + self.new_len as u128;
        if total == 0 {
            100
        } else {
            let top: u128 = 400 * (self.matched as u128) + total;
            assert(top as int / (2 * total) <= 100) by (nonlinear_arith)
                requires
                    total > 0,
                    top <= 201 * total,
            ;
            (top / (2 * total)) as usize
        }
    }
}

/// What is not above the lesser of two is not above the greater.
pub proof fn lemma_below(a: Similarity, b: Similarity, c: Similarity)
    requires
        a.below(b),
        !a.below(c),
    ensures
        !b.below(c),
{
    let (p, q, r) = (a.matched as int, b.matched as int, c.matched as int);
    let (x, y, z) = (a.total(), b.total(), c.total());
    if y != 0 && z != 0 {
        assert(r * y <= q * z) by (nonlinear_arith)
            requires
                p * y < q * x,
                r * x <= p * z,
                x > 0,
                y > 0,
                z > 0,
                q >= 0,
                r >= 0,
        {
            assert(r * x * y <= p * z * y);
            assert(p * y * z <= q * x * z);
            assert((r * y) * x <= (q * z) * x);
        }
    } else if y != 0 {
        assert(2 * q >= y) by (nonlinear_arith)
            requires
                p * y < q * x,
                2 * p >= x,
                x > 0,
                y > 0,
                q >= 0,
        {
            assert(q * x <= q * (2 * p));
            assert(p * y < p * (2 * q));
        }
    }
}

/// Nothing is below itself.
pub proof fn lemma_not_below_itself(a: Similarity)
    ensures
        !a.below(a),
{
}

} // verus!
