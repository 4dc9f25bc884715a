//! Rule tables, their compiled form, and the scanner that walks a source text.
use std::ops::Range;

use vstd::prelude::*;
use vstd::string::StringSliceAdditionalSpecFns;
use vstd::utf8::{encode_utf8, is_char_boundary};

use crate::matcher::{
    anchored, anchored_pattern, compile_regex, compile_regex_set, find_span, matching_indices,
    regex_compiles, regex_find, regex_set_compiles, regex_set_matches, CompiledRegex,
    CompiledSet,
};
use crate::select::{is_winner, len_of, none_usable, pick_rule, usable};

verus! {

/// Relies on `Clone` for `Range`, which `Token`'s derived `Clone` calls; it
/// promises nothing here.
pub assume_specification<Idx: Clone>[ <Range<Idx> as Clone>::clone ](r: &Range<Idx>) -> Range<Idx>;

/// A token returned by the lexer: its kind, its byte span in the source, and
/// the source text under that span.
#[derive(Debug, Clone, PartialEq, Eq)]
pub struct Token<'t, K> {
    pub kind: K,
    pub span: Range<usize>,
    pub text: &'t str,
}

/// Why a rule table could not be compiled.
#[derive(Debug, PartialEq)]
pub enum BuildError {
    /// The pattern of the rule at `index` (counted in declaration order) is
    /// not a valid regular expression.
    Pattern { index: usize, cause: regex::Error },
    /// Every pattern is valid alone, but the set of them could not be
    /// compiled together.
    Combined { cause: regex::Error },
}

/// The scan reached an offset at which no rule has a non-empty match.
#[derive(Debug, Clone, Copy, PartialEq, Eq)]
pub struct NoMatch {
    /// Byte offset of the first text that no rule accounts for.
    pub position: usize,
}

/// Each pattern in the form in which it is compiled.
pub open spec fn anchored_all(patterns: Seq<Seq<char>>) -> Seq<Seq<char>> {
    patterns.map_values(|p: Seq<char>| anchored_pattern(p))
}

/// Every pattern of the table compiles on its own.
pub open spec fn all_compile(patterns: Seq<Seq<char>>) -> bool {
    forall|i: int| 0 <= i < patterns.len() ==> #[trigger] regex_compiles(anchored_pattern(patterns[i]))
}

/// Builder for a [Lexer]: collects rules in declaration order.
pub struct LexerBuilder<'r, K> {
    regexes: Vec<&'r str>,
    kinds: Vec<Option<K>>,
}

impl<'r, K> LexerBuilder<'r, K> {
    /// The patterns declared so far, in order.
    pub closed spec fn patterns(&self) -> Seq<Seq<char>> {
        self.regexes@.map_values(|r: &str| r@)
    }

    /// The action of each declared rule: `Some(kind)` emits a token of that
    /// kind, `None` skips the matched text.
    pub closed spec fn actions(&self) -> Seq<Option<K>> {
        self.kinds@
    }

    /// Each pattern has exactly one action.
    pub open spec fn wf(&self) -> bool {
        self.patterns().len() == self.actions().len()
    }

    /// Creates a builder with no rules.
    pub fn new() -> (r: Self)
        ensures
            r.wf(),
            r.patterns() == Seq::<Seq<char>>::empty(),
            r.actions() == Seq::<Option<K>>::empty(),
    {
        let r = LexerBuilder { regexes: Vec::new(), kinds: Vec::new() };
        assert(r.patterns() =~= Seq::<Seq<char>>::empty());
        r
    }

    /// Adds a rule: text matched by the regular expression `re` becomes a
    /// token of kind `kind`. Where several rules match equally long text, the
    /// one added last wins.
    pub fn token(self, re: &'r str, kind: K) -> (r: Self)
        requires
            self.wf(),
        ensures
            r.wf(),
            r.patterns() == self.patterns().push(re@),
            r.actions() == self.actions().push(Some(kind)),
    {
        let mut b = self;
        b.regexes.push(re);
        b.kinds.push(Some(kind));
        assert(b.patterns() =~= self.patterns().push(re@));
        b
    }

    /// Adds a rule whose matches are consumed without producing a token.
    pub fn ignore(self, re: &'r str) -> (r: Self)
        requires
            self.wf(),
        ensures
            r.wf(),
            r.patterns() == self.patterns().push(re@),
            r.actions() == self.actions().push(None),
    {
        let mut b = self;
        b.regexes.push(re);
        b.kinds.push(None);
        assert(b.patterns() =~= self.patterns().push(re@));
        b
    }

    /// Compiles the rules into a [Lexer].
    ///
    /// Fails with `BuildError::Pattern` naming the first rule whose pattern is not a
    /// valid regular expression, and with `BuildError::Combined` where all are valid but
    /// cannot be compiled together.
    pub fn build(self) -> (r: Result<Lexer<K>, BuildError>)
        requires
            self.wf(),
        ensures
            match r {
                Ok(lexer) => {
                    &&& lexer.wf()
                    &&& lexer.actions() == self.actions()
                    &&& lexer.patterns() == anchored_all(self.patterns())
                    &&& lexer.patterns().len() == lexer.actions().len()
                    &&& all_compile(self.patterns())
                    &&& regex_set_compiles(anchored_all(self.patterns()))
                },
                Err(BuildError::Pattern { index, .. }) => {
                    &&& index < self.patterns().len()
                    &&& !regex_compiles(anchored_pattern(self.patterns()[index as int]))
                    &&& forall|j: int|
                        0 <= j < index ==> #[trigger] regex_compiles(
                            anchored_pattern(self.patterns()[j]),
                        )
                },
                Err(BuildError::Combined { .. }) => {
                    &&& all_compile(self.patterns())
                    &&& !regex_set_compiles(anchored_all(self.patterns()))
                },
            },
    {
        let ghost pats = self.patterns();
        let mut sources: Vec<String> = Vec::new();
        let mut regexes: Vec<CompiledRegex> = Vec::new();
        let mut i: usize = 0;
        while i < self.regexes.len()
            invariant
                self.wf(),
                pats == self.patterns(),
                i <= self.regexes.len(),
                regexes.len() == i,
                sources.len() == i,
                forall|j: int| 0 <= j < i ==> #[trigger] sources[j]@ == anchored_pattern(pats[j]),
                forall|j: int|
                    0 <= j < i ==> #[trigger] regexes[j].pattern() == anchored_pattern(pats[j]),
                forall|j: int| 0 <= j < i ==> #[trigger] regex_compiles(anchored_pattern(pats[j])),
            decreases self.regexes.len() - i,
        {
            let source = anchored(self.regexes[i]);
            assert(pats[i as int] == self.regexes@[i as int]@);
            match compile_regex(source.as_str()) {
                Ok(re) => regexes.push(re),
                Err(cause) => {
                    return Err(BuildError::Pattern { index: i, cause });
                },
            }
            sources.push(source);
            i = i + 1;
        }
        assert(sources.deep_view() =~= anchored_all(pats));
        match compile_regex_set(&sources) {
            Ok(regex_set) => {
                let lexer = Lexer { kinds: self.kinds, regexes, regex_set };
                assert(lexer.patterns() =~= anchored_all(pats));
                Ok(lexer)
            },
            Err(cause) => Err(BuildError::Combined { cause }),
        }
    }
}

impl<'r, K> Default for LexerBuilder<'r, K> {
    fn default() -> (r: Self)
        ensures
            r.wf(),
            r.patterns() == Seq::<Seq<char>>::empty(),
            r.actions() == Seq::<Option<K>>::empty(),
    {
        Self::new()
    }
}

/// A compiled rule table.
#[derive(Debug)]
pub struct Lexer<K> {
    kinds: Vec<Option<K>>,
    regexes: Vec<CompiledRegex>,
    regex_set: CompiledSet,
}

impl<K> Lexer<K> {
    /// The action of each rule, in declaration order.
    pub closed spec fn actions(&self) -> Seq<Option<K>> {
        self.kinds@
    }

    /// The pattern each rule was compiled from, in declaration order.
    pub closed spec fn patterns(&self) -> Seq<Seq<char>> {
        self.regexes@.map_values(|c: CompiledRegex| c.pattern())
    }

    /// Each rule has exactly one compiled matcher, and the set matcher holds
    /// the same patterns in the same order.
    pub closed spec fn wf(&self) -> bool {
        &&& self.regexes@.len() == self.kinds@.len()
        &&& self.regex_set.patterns() == self.patterns()
    }

    /// Creates an empty [LexerBuilder]; the same as `LexerBuilder::new`.
    pub fn builder<'r>() -> (r: LexerBuilder<'r, K>)
        ensures
            r.wf(),
            r.patterns() == Seq::<Seq<char>>::empty(),
            r.actions() == Seq::<Option<K>>::empty(),
    {
        LexerBuilder::new()
    }
}


impl<K> Lexer<K> {
    /// Every rule's match length at the start of `rest`: `None` for a rule that
    /// does not match there.
    fn candidate_lengths(&self, rest: &str) -> (lens: Vec<Option<usize>>)
        requires
            self.wf(),
        ensures
            lens@ == candidates(self.patterns(), rest@),
            forall|i: int|
                0 <= i < lens@.len() && #[trigger] lens@[i] is Some ==> {
                    &&& lens@[i]->Some_0 <= rest.spec_bytes().len()
                    &&& is_char_boundary(rest.spec_bytes(), lens@[i]->Some_0 as int)
                },
    {
        let matched = matching_indices(&self.regex_set, rest);
        let ghost pats = self.patterns();
        let mut lens: Vec<Option<usize>> = Vec::new();
        let mut j: usize = 0;
        let mut r: usize = 0;
        while r < self.regexes.len()
            invariant
                self.wf(),
                pats == self.patterns(),
                matched@ == regex_set_matches(pats, rest@),
                forall|a: int, b: int| 0 <= a < b < matched.len() ==> matched[a] < matched[b],
                r <= self.regexes.len(),
                j <= matched.len(),
                forall|t: int| 0 <= t < j ==> matched[t] < r,
                forall|t: int| j <= t < matched.len() ==> matched[t] >= r,
                lens@.len() == r,
                forall|k: int| 0 <= k < r ==> lens@[k] == #[trigger] rule_match(pats, k, rest@),
                forall|i: int|
                    0 <= i < lens@.len() && #[trigger] lens@[i] is Some ==> {
                        &&& lens@[i]->Some_0 <= rest.spec_bytes().len()
                        &&& is_char_boundary(rest.spec_bytes(), lens@[i]->Some_0 as int)
                    },
            decreases self.regexes.len() - r,
        {
            assert(pats[r as int] == self.regexes@[r as int].pattern());
            if j < matched.len() && matched[j] == r {
                assert(matched@.contains(r));
                j = j + 1;
                match find_span(&self.regexes[r], rest) {
                    Some((start, end)) => {
                        if start == 0 {
                            lens.push(Some(end));
                        } else {
                            lens.push(None);
                        }
                    },
                    None => lens.push(None),
                }
            } else {
                assert(!matched@.contains(r)) by {
                    if j < matched.len() {
                        assert(matched[j as int] > r);
                        assert forall|t: int| j <= t < matched.len() implies matched[t] > r by {
                            if t > j {
                                assert(matched[j as int] < matched[t]);
                            }
                        }
                    }
                }
                lens.push(None);
            }
            assert forall|t: int| j <= t < matched.len() implies matched[t] >= r + 1 by {
                if j > 0 && t > j - 1 {
                    assert(matched[j - 1] < matched[t]);
                }
            }
            r = r + 1;
        }
        assert(lens@ =~= candidates(pats, rest@));
        lens
    }

    /// Starts a scan of `source` from its first byte.
    pub fn tokens<'l, 't>(&'l self, source: &'t str) -> (r: Tokens<'l, 't, K>)
        requires
            self.wf(),
        ensures
            r.wf(),
            r.actions() == self.actions(),
            r.patterns() == self.patterns(),
            r.source_bytes() == source.spec_bytes(),
            r.position() == 0,
            r.steps() == Seq::<ScanStep>::empty(),
            !r.stopped(),
    {
        broadcast use vstd::slice::group_slice_axioms;

        let n = source.as_bytes().len();
        assert(n == source.spec_bytes().len());
        let r = Tokens {
            lexer: self,
            source,
            rest: source,
            position: 0,
            stopped: false,
            steps: Ghost(Seq::empty()),
            rejected: Ghost(Seq::empty()),
        };
        assert(source.spec_bytes().subrange(0, source.spec_bytes().len() as int)
            =~= source.spec_bytes());
        r
    }
}

/// Rule `i`'s match length at the start of `text`: it counts only where the
/// set matcher reports rule `i` and rule `i`'s own match begins at offset 0.
pub open spec fn rule_match(patterns: Seq<Seq<char>>, i: int, text: Seq<char>) -> Option<usize> {
    if regex_set_matches(patterns, text).contains(i as usize) {
        match regex_find(patterns[i], text) {
            Some((s, e)) => if s == 0 {
                Some(e)
            } else {
                None
            },
            None => None,
        }
    } else {
        None
    }
}

/// Every rule's match length at the start of `text`, in declaration order.
pub open spec fn candidates(patterns: Seq<Seq<char>>, text: Seq<char>) -> Seq<Option<usize>> {
    Seq::new(patterns.len(), |i: int| rule_match(patterns, i, text))
}

/// One scan step: the byte span it consumed, the index of the rule that won,
/// and the source text from the start of that span on.
pub type ScanStep = (int, int, int, Seq<char>);

/// Where the steps taken so far end: the scan offset after them.
pub open spec fn steps_end(steps: Seq<ScanStep>) -> int {
    if steps.len() == 0 {
        0
    } else {
        steps.last().1
    }
}

/// The steps start at offset 0, each begins where the one before it ended,
/// and each consumes at least one byte.
pub open spec fn contiguous(steps: Seq<ScanStep>) -> bool
    decreases steps.len(),
{
    if steps.len() == 0 {
        true
    } else {
        let prev = steps.drop_last();
        &&& contiguous(prev)
        &&& steps.last().0 == steps_end(prev)
        &&& steps.last().0 < steps.last().1
    }
}

/// The step was decided by the rule table: its text is the source from the
/// step's start on, its rule won among the rules' matches at the start of that
/// text, and its span is exactly that rule's match.
pub open spec fn follows_rules<K>(
    patterns: Seq<Seq<char>>,
    actions: Seq<Option<K>>,
    source: Seq<u8>,
    step: ScanStep,
) -> bool {
    &&& patterns.len() == actions.len()
    &&& encode_utf8(step.3) == source.subrange(step.0, source.len() as int)
    &&& is_winner(candidates(patterns, step.3), step.2)
    &&& step.1 - step.0 == len_of(candidates(patterns, step.3), step.2)
}

/// The source text under each step, put together in order.
pub open spec fn steps_text(source: Seq<u8>, steps: Seq<ScanStep>) -> Seq<u8>
    decreases steps.len(),
{
    if steps.len() == 0 {
        Seq::empty()
    } else {
        steps_text(source, steps.drop_last()) + source.subrange(steps.last().0, steps.last().1)
    }
}

/// The number of steps whose rule emits a token.
pub open spec fn emitted_count<K>(actions: Seq<Option<K>>, steps: Seq<ScanStep>) -> nat
    decreases steps.len(),
{
    if steps.len() == 0 {
        0
    } else {
        emitted_count(actions, steps.drop_last()) + if actions[steps.last().2] is Some {
            1nat
        } else {
            0nat
        }
    }
}

/// A scan of one source text with one [Lexer], returned by [Lexer::tokens].
pub struct Tokens<'l, 't, K> {
    lexer: &'l Lexer<K>,
    source: &'t str,
    rest: &'t str,
    position: usize,
    stopped: bool,
    steps: Ghost<Seq<ScanStep>>,
    rejected: Ghost<Seq<char>>,
}

impl<'l, 't, K> Tokens<'l, 't, K> {
    /// The rule actions of the lexer in use.
    pub closed spec fn actions(&self) -> Seq<Option<K>> {
        self.lexer.actions()
    }

    /// The patterns of the lexer in use.
    pub closed spec fn patterns(&self) -> Seq<Seq<char>> {
        self.lexer.patterns()
    }

    /// The bytes of the source being scanned.
    pub closed spec fn source_bytes(&self) -> Seq<u8> {
        self.source.spec_bytes()
    }

    /// The byte offset up to which the source has been consumed.
    pub closed spec fn position(&self) -> int {
        self.position as int
    }

    /// Every step taken so far, emitted and skipped alike.
    pub closed spec fn steps(&self) -> Seq<ScanStep> {
        self.steps@
    }

    /// The scan met text that no rule accounts for, and is over.
    pub closed spec fn stopped(&self) -> bool {
        self.stopped
    }

    /// Where the scan stopped: the source text from that offset on.
    pub closed spec fn rejected(&self) -> Seq<char> {
        self.rejected@
    }

    /// The unread text is the source after `position`, the steps taken so far
    /// cover the source up to `position`, and each was decided by the rules.
    pub closed spec fn wf(&self) -> bool {
        &&& self.lexer.wf()
        &&& self.source.spec_bytes().len() <= usize::MAX
        &&& self.position <= self.source.spec_bytes().len()
        &&& self.rest.spec_bytes() == self.source.spec_bytes().subrange(
            self.position as int,
            self.source.spec_bytes().len() as int,
        )
        &&& contiguous(self.steps@)
        &&& steps_end(self.steps@) == self.position
        &&& forall|k: int|
            0 <= k < self.steps@.len() ==> #[trigger] follows_rules(
                self.lexer.patterns(),
                self.lexer.actions(),
                self.source.spec_bytes(),
                self.steps@[k],
            )
        &&& self.stopped ==> {
            &&& encode_utf8(self.rejected@) == self.source.spec_bytes().subrange(
                self.position as int,
                self.source.spec_bytes().len() as int,
            )
            &&& none_usable(candidates(self.lexer.patterns(), self.rejected@))
            &&& self.position < self.source.spec_bytes().len()
        }
    }

    /// What a well-formed scan state guarantees: the position lies within the
    /// source, the steps taken cover the source up to it, each step was
    /// decided by the rules, and a stopped scan stopped where no rule matches.
    pub proof fn lemma_wf_facts(&self)
        requires
            self.wf(),
        ensures
            0 <= self.position() <= self.source_bytes().len(),
            self.patterns().len() == self.actions().len(),
            contiguous(self.steps()),
            steps_end(self.steps()) == self.position(),
            forall|k: int|
                0 <= k < self.steps().len() ==> #[trigger] follows_rules(
                    self.patterns(),
                    self.actions(),
                    self.source_bytes(),
                    self.steps()[k],
                ),
            self.stopped() ==> {
                &&& encode_utf8(self.rejected()) == self.source_bytes().subrange(
                    self.position(),
                    self.source_bytes().len() as int,
                )
                &&& none_usable(candidates(self.patterns(), self.rejected()))
                &&& self.position() < self.source_bytes().len()
            },
    {
    }
}

/// The steps from index `from` on all come from rules that skip their text.
pub open spec fn skips_from<K>(actions: Seq<Option<K>>, steps: Seq<ScanStep>, from: int, to: int) -> bool {
    forall|k: int| from <= k < to ==> #[trigger] actions[steps[k].2] is None
}

impl<'l, 't, K: Copy> Tokens<'l, 't, K> {
    /// Scans on to the next token.
    ///
    /// Text matched by skipping rules is consumed on the way without being
    /// reported. Returns `None` once the whole source is consumed, and
    /// `Some(Err(..))` at the first offset where no rule has a non-empty
    /// match; after that the scan is over and only `None` comes.
    #[verifier::loop_isolation(false)]
    pub fn next(&mut self) -> (r: Option<Result<Token<'t, K>, NoMatch>>)
        requires
            old(self).wf(),
        ensures
            final(self).wf(),
            final(self).actions() == old(self).actions(),
            final(self).patterns() == old(self).patterns(),
            final(self).position() <= final(self).source_bytes().len(),
            final(self).source_bytes() == old(self).source_bytes(),
            final(self).steps().len() >= old(self).steps().len(),
            final(self).steps().subrange(0, old(self).steps().len() as int) == old(self).steps(),
            final(self).position() >= old(self).position(),
            old(self).stopped() ==> r is None && final(self).steps() == old(self).steps()
                && final(self).stopped(),
            emitted_count(final(self).actions(), final(self).steps()) == emitted_count(
                old(self).actions(),
                old(self).steps(),
            ) + if r matches Some(Ok(_)) {
                1nat
            } else {
                0nat
            },
            match r {
                None => {
                    &&& old(self).stopped() || final(self).position()
                        == final(self).source_bytes().len()
                    &&& skips_from(
                        final(self).actions(),
                        final(self).steps(),
                        old(self).steps().len() as int,
                        final(self).steps().len() as int,
                    )
                },
                Some(Ok(tok)) => {
                    let steps = final(self).steps();
                    let last = steps.last();
                    &&& steps.len() > old(self).steps().len()
                    &&& skips_from(
                        final(self).actions(),
                        steps,
                        old(self).steps().len() as int,
                        steps.len() - 1,
                    )
                    &&& follows_rules(
                        final(self).patterns(),
                        final(self).actions(),
                        final(self).source_bytes(),
                        last,
                    )
                    &&& old(self).position() <= tok.span.start < tok.span.end
                    &&& final(self).actions()[last.2] == Some(tok.kind)
                    &&& tok.span.start == last.0
                    &&& tok.span.end == last.1
                    &&& tok.span.end == final(self).position()
                    &&& tok.text.spec_bytes() == final(self).source_bytes().subrange(
                        last.0,
                        last.1,
                    )
                    &&& !final(self).stopped()
                },
                Some(Err(e)) => {
                    &&& !old(self).stopped()
                    &&& final(self).stopped()
                    &&& e.position == final(self).position()
                    &&& e.position < final(self).source_bytes().len()
                    &&& encode_utf8(final(self).rejected()) == final(self).source_bytes().subrange(
                        e.position as int,
                        final(self).source_bytes().len() as int,
                    )
                    &&& none_usable(candidates(final(self).patterns(), final(self).rejected()))
                    &&& skips_from(
                        final(self).actions(),
                        final(self).steps(),
                        old(self).steps().len() as int,
                        final(self).steps().len() as int,
                    )
                },
            },
    {
        if self.stopped {
            return None;
        }
        let ghost steps0 = self.steps@;
        let ghost actions = self.lexer.actions();
        let ghost pats = self.lexer.patterns();
        let ghost src = self.source.spec_bytes();
        let ghost pos0 = self.position;
        loop
            invariant
                self.wf(),
                !self.stopped,
                self.lexer.actions() == actions,
                self.lexer.patterns() == pats,
                self.source.spec_bytes() == src,
                self.position >= pos0,
                self.steps@.len() >= steps0.len(),
                self.steps@.subrange(0, steps0.len() as int) == steps0,
                skips_from(actions, self.steps@, steps0.len() as int, self.steps@.len() as int),
                emitted_count(actions, self.steps@) == emitted_count(actions, steps0),
            decreases src.len() - self.position,
        {
            if self.position == self.source.len() {
                return None;
            }
            let lens = self.lexer.candidate_lengths(self.rest);
            match pick_rule(&lens) {
                None => {
                    self.stopped = true;
                    self.rejected = Ghost(self.rest@);
                    return Some(Err(NoMatch { position: self.position }));
                },
                Some(i) => {
                    assert(usable(lens@, i as int));
                    let len = match lens[i] {
                        Some(l) => l,
                        None => 0,
                    };
                    let ghost rest_text = self.rest@;
                    let (text, rest) = self.rest.split_at(len);
                    let start = self.position;
                    let end = start + len;
                    assert(text.spec_bytes() =~= src.subrange(start as int, end as int));
                    assert(rest.spec_bytes() =~= src.subrange(end as int, src.len() as int));
                    let ghost step: ScanStep = (start as int, end as int, i as int, rest_text);
                    let ghost before = self.steps@;
                    self.position = end;
                    self.rest = rest;
                    self.steps = Ghost(before.push(step));
                    assert(self.steps@.drop_last() =~= before);
                    assert(self.steps@.subrange(0, steps0.len() as int) =~= steps0);
                    assert forall|k: int| 0 <= k < self.steps@.len() implies #[trigger] follows_rules(
                        self.lexer.patterns(),
                        actions,
                        src,
                        self.steps@[k],
                    ) by {
                        if k < before.len() {
                            assert(self.steps@[k] == before[k]);
                        }
                    }
                    match self.lexer.kinds[i] {
                        Some(kind) => {
                            return Some(Ok(Token { kind, span: Range { start, end }, text }));
                        },
                        None => {},
                    }
                },
            }
        }
    }
}

/// Scanning to the end of the source consumes all of it: the texts of the
/// steps taken, emitted and skipped alike, put together in order, are the
/// source itself.
pub proof fn lemma_steps_cover_source<K>(t: &Tokens<'_, '_, K>)
    requires
        t.wf(),
        t.position() == t.source_bytes().len(),
    ensures
        steps_text(t.source_bytes(), t.steps()) == t.source_bytes(),
{
    lemma_steps_text(t.source_bytes(), t.steps());
    assert(t.source_bytes().subrange(0, t.source_bytes().len() as int) =~= t.source_bytes());
}

proof fn lemma_steps_text(source: Seq<u8>, steps: Seq<ScanStep>)
    requires
        contiguous(steps),
        steps_end(steps) <= source.len(),
    ensures
        steps_end(steps) >= 0,
        steps_text(source, steps) == source.subrange(0, steps_end(steps)),
    decreases steps.len(),
{
    if steps.len() == 0 {
        assert(source.subrange(0, 0) =~= Seq::<u8>::empty());
    } else {
        let prev = steps.drop_last();
        lemma_steps_text(source, prev);
        assert(source.subrange(0, steps_end(prev)) + source.subrange(steps.last().0, steps.last().1)
            =~= source.subrange(0, steps_end(steps)));
    }
}

} // verus!
