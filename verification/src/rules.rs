//! Pattern rules for run-time type recognition.
//!
//! A [`MatchRule`] pairs a concrete text pattern with the type identifier it
//! recognizes and a priority. A [`MatchRuleSet`] evaluates all rules against
//! a token's text: the highest priority wins, and among equal priorities the
//! earliest registered. Patterns are pure data, so classification is a pure
//! function of the rule set and the text.

use crate::literal::WordKindId;
use crate::numtext::{is_digit_char, is_digit_text};
use vstd::prelude::*;

verus! {

/// A concrete text pattern a recognizer rule can use.
#[derive(Debug)]
pub enum TokenPattern {
    /// A nonempty run of decimal digits.
    Unsigned,
    /// An optional leading minus sign, then a nonempty run of digits.
    SignedInteger,
    /// Exactly the given text.
    Exact(String),
    /// Any nonempty text.
    NonEmpty,
}

/// Whether a pattern matches a token's text.
pub open spec fn spec_pattern_matches(p: TokenPattern, t: Seq<char>) -> bool {
    match p {
        TokenPattern::Unsigned => is_digit_text(t),
        TokenPattern::SignedInteger => is_signed_integer_text(t),
        TokenPattern::Exact(s) => t == s@,
        TokenPattern::NonEmpty => t.len() > 0,
    }
}

/// An optional leading minus sign, then nonempty digits.
pub open spec fn is_signed_integer_text(t: Seq<char>) -> bool {
    if t.len() > 0 && t[0] == '-' {
        is_digit_text(t.subrange(1, t.len() as int))
    } else {
        is_digit_text(t)
    }
}

/// Evaluate a pattern against a token's text.
pub fn pattern_matches(p: &TokenPattern, chars: &Vec<char>) -> (r: bool)
    ensures
        r == spec_pattern_matches(*p, chars@),
{
    match p {
        TokenPattern::Unsigned => digits_only(chars, 0),
        TokenPattern::SignedInteger => {
            if chars.len() > 0 && chars[0] == '-' {
                let r = digits_only(chars, 1);
                proof {
                    let m = chars@.subrange(1, chars@.len() as int);
                    assert(is_digit_text(m) == (m.len() > 0 && forall|k: int|
                        0 <= k < m.len() ==> is_digit_char(m[k])));
                    assert(forall|k: int|
                        1 <= k < chars@.len() ==> m[k - 1] == chars@[k]);
                    assert((chars@.len() > 1 && forall|k: int|
                        1 <= k < chars@.len() ==> is_digit_char(chars@[k])) == is_digit_text(m));
                }
                r
            } else {
                digits_only(chars, 0)
            }
        },
        TokenPattern::Exact(s) => {
            let cs = crate::numtext::string_to_chars(s.as_str());
            chars_equal(chars, &cs)
        },
        TokenPattern::NonEmpty => chars.len() > 0,
    }
}

/// Whether the characters from `start` on are one or more decimal digits.
fn digits_only(chars: &Vec<char>, start: usize) -> (r: bool)
    requires
        start <= chars@.len(),
    ensures
        r == (chars@.len() > start && forall|k: int|
            start <= k < chars@.len() ==> is_digit_char(chars@[k])),
{
    if chars.len() == start {
        return false;
    }
    let mut i = start;
    while i < chars.len()
        invariant
            start <= i <= chars@.len(),
            forall|k: int| start <= k < i ==> is_digit_char(chars@[k]),
        decreases chars@.len() - i,
    {
        let cu = chars[i] as u32;
        if cu < 0x30 || cu > 0x39 {
            assert(!is_digit_char(chars@[i as int]));
            return false;
        }
        i = i + 1;
    }
    true
}

/// Whether two character vectors hold the same characters.
fn chars_equal(a: &Vec<char>, b: &Vec<char>) -> (r: bool)
    ensures
        r == (a@ == b@),
{
    if a.len() != b.len() {
        proof {
            assert(a@.len() != b@.len());
        }
        return false;
    }
    let mut i: usize = 0;
    while i < a.len()
        invariant
            i <= a@.len(),
            a@.len() == b@.len(),
            forall|k: int| 0 <= k < i ==> a@[k] == b@[k],
        decreases a@.len() - i,
    {
        if a[i] != b[i] {
            return false;
        }
        i = i + 1;
    }
    proof {
        assert(a@ =~= b@);
    }
    true
}

/// The outcome of testing one rule: the recognized type identifier, or no
/// match.
#[derive(Debug)]
pub enum MatchRuleResult<A> {
    Match(A),
    NoMatch,
}

impl<A> MatchRuleResult<A> {
    /// Whether this outcome is a match.
    pub fn is_match(&self) -> (r: bool)
        ensures
            r == (self is Match),
    {
        matches!(self, MatchRuleResult::Match(_))
    }

    /// Borrow the matched value, if any.
    pub fn as_ref(&self) -> (r: Option<&A>)
        ensures
            match r {
                Some(a) => *self matches MatchRuleResult::Match(m) && a == m,
                None => *self is NoMatch,
            },
    {
        match self {
            MatchRuleResult::Match(a) => Some(a),
            MatchRuleResult::NoMatch => None,
        }
    }

    /// Apply a function to the matched value, if any.
    pub fn map<B, F: FnOnce(A) -> B>(self, f: F) -> (r: MatchRuleResult<B>)
        requires
            self matches MatchRuleResult::Match(a) ==> call_requires(f, (a,)),
        ensures
            match self {
                MatchRuleResult::Match(a) => r matches MatchRuleResult::Match(b) && call_ensures(
                    f,
                    (a,),
                    b,
                ),
                MatchRuleResult::NoMatch => r is NoMatch,
            },
    {
        match self {
            MatchRuleResult::Match(a) => MatchRuleResult::Match(f(a)),
            MatchRuleResult::NoMatch => MatchRuleResult::NoMatch,
        }
    }

    /// Take the matched value out, if any.
    pub fn into_inner(self) -> (r: Option<A>)
        ensures
            match r {
                Some(a) => self matches MatchRuleResult::Match(m) && a == m,
                None => self is NoMatch,
            },
    {
        match self {
            MatchRuleResult::Match(a) => Some(a),
            MatchRuleResult::NoMatch => None,
        }
    }
}

/// One recognizer rule: a pattern, the type identifier it recognizes, and its
/// priority.
#[derive(Debug)]
pub struct MatchRule {
    pub pattern: TokenPattern,
    pub id: WordKindId,
    pub priority: usize,
}

/// Ghost model of a rule.
pub struct MatchRuleView {
    pub pattern: TokenPattern,
    pub id: Seq<char>,
    pub priority: nat,
}

impl View for MatchRule {
    type V = MatchRuleView;

    open spec fn view(&self) -> MatchRuleView {
        MatchRuleView { pattern: self.pattern, id: self.id@, priority: self.priority as nat }
    }
}

impl MatchRule {
    /// Build a rule.
    pub fn new(pattern: TokenPattern, id: WordKindId, priority: usize) -> (r: MatchRule)
        ensures
            r@.pattern == pattern,
            r@.id == id@,
            r@.priority == priority,
    {
        MatchRule { pattern, id, priority }
    }

    /// Test the rule against a token's text.
    pub fn test(&self, chars: &Vec<char>) -> (r: MatchRuleResult<WordKindId>)
        ensures
            spec_pattern_matches(self@.pattern, chars@) ==> (r matches MatchRuleResult::Match(id)
                && id@ == self@.id),
            !spec_pattern_matches(self@.pattern, chars@) ==> r is NoMatch,
    {
        if pattern_matches(&self.pattern, chars) {
            MatchRuleResult::Match(self.id.clone())
        } else {
            MatchRuleResult::NoMatch
        }
    }
}

/// The index of the winning rule among `rules[k..]` for text `t`: the first
/// rule of maximal priority among those whose pattern matches.
pub open spec fn spec_best_rule(rules: Seq<MatchRuleView>, t: Seq<char>, k: int) -> Option<int>
    decreases rules.len() - k,
{
    if k < 0 || k >= rules.len() {
        None
    } else {
        let rest = spec_best_rule(rules, t, k + 1);
        if spec_pattern_matches(rules[k].pattern, t) {
            match rest {
                Some(j) => if rules[j].priority > rules[k].priority {
                    Some(j)
                } else {
                    Some(k)
                },
                None => Some(k),
            }
        } else {
            rest
        }
    }
}

/// The identifier a rule set classifies text as: that of the winning rule.
pub open spec fn spec_classify(rules: Seq<MatchRuleView>, t: Seq<char>) -> Option<Seq<char>> {
    match spec_best_rule(rules, t, 0) {
        Some(j) => Some(rules[j].id),
        None => None,
    }
}

/// An ordered set of recognizer rules.
#[derive(Debug)]
pub struct MatchRuleSet {
    pub match_rules: Vec<MatchRule>,
}

impl View for MatchRuleSet {
    type V = Seq<MatchRuleView>;

    open spec fn view(&self) -> Seq<MatchRuleView> {
        Seq::new(self.match_rules@.len(), |i: int| self.match_rules@[i]@)
    }
}

impl MatchRuleSet {
    /// An empty rule set.
    pub fn new() -> (r: MatchRuleSet)
        ensures
            r@ =~= Seq::<MatchRuleView>::empty(),
    {
        MatchRuleSet { match_rules: Vec::new() }
    }

    /// Register one more rule, after all earlier ones.
    pub fn insert(&mut self, rule: MatchRule)
        ensures
            final(self)@ =~= old(self)@.push(rule@),
    {
        self.match_rules.push(rule);
    }

    /// The winning rule's identifier for the given text: the first match of
    /// maximal priority, or no match at all.
    #[verifier::loop_isolation(false)]
    pub fn first_match(&self, chars: &Vec<char>) -> (r: MatchRuleResult<WordKindId>)
        ensures
            match r {
                MatchRuleResult::Match(id) => spec_classify(self@, chars@) == Some(id@),
                MatchRuleResult::NoMatch => spec_classify(self@, chars@) is None,
            },
    {
        let ghost rules = self@;
        let mut best: Option<usize> = None;
        let mut i: usize = self.match_rules.len();
        while i > 0
            invariant
                i <= self.match_rules@.len(),
                rules == self@,
                match best {
                    Some(j) => j < self.match_rules@.len() && spec_best_rule(rules, chars@, i as int)
                        == Some(j as int),
                    None => spec_best_rule(rules, chars@, i as int) is None,
                },
            decreases i,
        {
            i = i - 1;
            let matched = pattern_matches(&self.match_rules[i].pattern, chars);
            if matched {
                match best {
                    Some(j) => {
                        if self.match_rules[j].priority > self.match_rules[i].priority {
                        } else {
                            best = Some(i);
                        }
                    },
                    None => {
                        best = Some(i);
                    },
                }
            }
        }
        match best {
            Some(j) => MatchRuleResult::Match(self.match_rules[j].id.clone()),
            None => MatchRuleResult::NoMatch,
        }
    }
}

/// Classification determinism: what a rule set classifies a text as is a pure
/// function of the rule set and the text, so any two classifications of the
/// same text against the same rules agree.
pub proof fn lemma_classify_deterministic(
    rules: Seq<MatchRuleView>,
    t: Seq<char>,
    r1: Option<Seq<char>>,
    r2: Option<Seq<char>>,
)
    requires
        r1 == spec_classify(rules, t),
        r2 == spec_classify(rules, t),
    ensures
        r1 == r2,
{
}

/// Classification soundness: the winning rule's pattern matches the text, no
/// matching rule has higher priority, and among equal priorities the winner
/// is the earliest registered.
pub proof fn lemma_classify_sound(rules: Seq<MatchRuleView>, t: Seq<char>, k: int)
    requires
        0 <= k <= rules.len(),
    ensures
        match spec_best_rule(rules, t, k) {
            Some(j) => {
                &&& k <= j < rules.len()
                &&& spec_pattern_matches(rules[j].pattern, t)
                &&& forall|m: int|
                    k <= m < rules.len() && spec_pattern_matches(#[trigger] rules[m].pattern, t)
                        ==> rules[m].priority <= rules[j].priority
                &&& forall|m: int|
                    k <= m < j && spec_pattern_matches(#[trigger] rules[m].pattern, t)
                        ==> rules[m].priority < rules[j].priority
            },
            None => forall|m: int|
                k <= m < rules.len() ==> !spec_pattern_matches(#[trigger] rules[m].pattern, t),
        },
    decreases rules.len() - k,
{
    if k < rules.len() {
        lemma_classify_sound(rules, t, k + 1);
    }
}

} // verus!
