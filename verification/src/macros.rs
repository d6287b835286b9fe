//! Expansion of declarative macros: an invocation is replaced by the
//! expansion of the first rule whose pattern it matches.

use crate::error::CompileError;
use crate::types::Symbol;
use vstd::prelude::*;

verus! {

/// The three kinds of bracket.
#[derive(Clone, Copy, PartialEq, Eq, Structural, Debug)]
pub enum Delim {
    Paren,
    Bracket,
    Brace,
}

/// A token of the syntax. Names and string literals are interned.
#[derive(Clone, Copy, PartialEq, Eq, Structural, Debug)]
pub enum Token {
    Ident(Symbol),
    Str(Symbol),
    Int(u64),
    Punct(u8),
    Open(Delim),
    Close(Delim),
}

/// One position of a rule's pattern: a token that must be there as
/// written, or a variable that stands for whatever token is there.
#[derive(Clone, Copy, PartialEq, Eq, Structural, Debug)]
pub enum Matcher {
    Exact(Token),
    Bind(Symbol),
}

/// One position of a rule's expansion: a token that is written out as it
/// is, or a variable that is replaced by the token it stands for.
#[derive(Clone, Copy, PartialEq, Eq, Structural, Debug)]
pub enum Piece {
    Token(Token),
    Var(Symbol),
}

/// A rule of a macro: a pattern and what an invocation that matches it is
/// replaced by.
#[derive(Debug)]
pub struct Rule {
    pub pattern: Vec<Matcher>,
    pub expansion: Vec<Piece>,
}

/// A macro: its name and its rules in the order of their declaration.
#[derive(Debug)]
pub struct MacroDef {
    pub name: Symbol,
    pub rules: Vec<Rule>,
}

/// The mathematical value of a [`Rule`].
pub ghost struct RuleView {
    pub pattern: Seq<Matcher>,
    pub expansion: Seq<Piece>,
}

/// The mathematical value of a [`MacroDef`].
pub ghost struct DefView {
    pub name: Symbol,
    pub rules: Seq<RuleView>,
}

impl View for Rule {
    type V = RuleView;

    open spec fn view(&self) -> RuleView {
        RuleView { pattern: self.pattern@, expansion: self.expansion@ }
    }
}

/// The views of a list of rules.
pub open spec fn rule_views(rules: Seq<Rule>) -> Seq<RuleView> {
    Seq::new(rules.len(), |i: int| rules[i]@)
}

impl View for MacroDef {
    type V = DefView;

    open spec fn view(&self) -> DefView {
        DefView { name: self.name, rules: rule_views(self.rules@) }
    }
}

/// The views of a list of macros.
pub open spec fn def_views(defs: Seq<MacroDef>) -> Seq<DefView> {
    Seq::new(defs.len(), |i: int| defs[i]@)
}

/// The tokens of the empty block, `{}`.
pub open spec fn unit_block() -> Seq<Token> {
    seq![Token::Open(Delim::Brace), Token::Close(Delim::Brace)]
}

/// First position at or after `from` at which the pattern binds `var`.
pub open spec fn binder_from(pattern: Seq<Matcher>, var: Symbol, from: int) -> Option<int>
    decreases pattern.len() - from,
{
    if from < 0 || from >= pattern.len() {
        None
    } else if pattern[from] == Matcher::Bind(var) {
        Some(from)
    } else {
        binder_from(pattern, var, from + 1)
    }
}

impl RuleView {
    /// The invocation has as many tokens as the pattern has positions, and
    /// each token that the pattern spells out is there as written.
    pub open spec fn matches(self, tokens: Seq<Token>) -> bool {
        &&& self.pattern.len() == tokens.len()
        &&& forall|i: int|
            0 <= i < self.pattern.len() ==> ((#[trigger] self.pattern[i]) matches Matcher::Exact(t)
                ==> tokens[i] == t)
    }

    /// What the token at position `k` of the expansion becomes: itself, or
    /// for a variable the token of the invocation at the first position at
    /// which the pattern binds that variable. A variable that the pattern
    /// does not bind is left as a name.
    pub open spec fn transcribe_at(self, tokens: Seq<Token>, k: int) -> Token {
        match self.expansion[k] {
            Piece::Token(t) => t,
            Piece::Var(var) => match binder_from(self.pattern, var, 0) {
                Some(i) => tokens[i],
                None => Token::Ident(var),
            },
        }
    }

    /// The expansion with the tokens of the invocation filled in.
    pub open spec fn transcribe(self, tokens: Seq<Token>) -> Seq<Token> {
        Seq::new(self.expansion.len(), |k: int| self.transcribe_at(tokens, k))
    }
}

/// First rule at or after `from` that the invocation matches.
pub open spec fn first_match_from(rules: Seq<RuleView>, tokens: Seq<Token>, from: int) -> Option<int>
    decreases rules.len() - from,
{
    if from < 0 || from >= rules.len() {
        None
    } else if rules[from].matches(tokens) {
        Some(from)
    } else {
        first_match_from(rules, tokens, from + 1)
    }
}

/// Last macro before `upto` that is declared under `name`.
pub open spec fn latest_before(defs: Seq<DefView>, name: Symbol, upto: int) -> Option<int>
    decreases upto,
{
    if upto <= 0 || upto > defs.len() {
        None
    } else if defs[upto - 1].name == name {
        Some(upto - 1)
    } else {
        latest_before(defs, name, upto - 1)
    }
}

impl DefView {
    /// A macro whose one rule takes no tokens and gives the empty block. It
    /// stands for the unit value wherever it is invoked, whatever tokens the
    /// invocation holds.
    pub open spec fn is_marker(self) -> bool {
        &&& self.rules.len() == 1
        &&& self.rules[0].pattern.len() == 0
        &&& self.rules[0].expansion == seq![
            Piece::Token(Token::Open(Delim::Brace)),
            Piece::Token(Token::Close(Delim::Brace)),
        ]
    }

    /// What an invocation of this macro with `tokens` is replaced by.
    pub open spec fn expand(self, tokens: Seq<Token>) -> Result<Seq<Token>, CompileError> {
        if self.is_marker() {
            Ok(unit_block())
        } else {
            match first_match_from(self.rules, tokens, 0) {
                Some(k) => Ok(self.rules[k].transcribe(tokens)),
                None => Err(CompileError::NoMatchingRule),
            }
        }
    }
}

/// What the invocation `name!(tokens)` is replaced by: the expansion of the
/// first rule that matches, of the macro that was declared last under that
/// name.
pub open spec fn expansion(defs: Seq<DefView>, name: Symbol, tokens: Seq<Token>) -> Result<
    Seq<Token>,
    CompileError,
> {
    match latest_before(defs, name, defs.len() as int) {
        Some(d) => defs[d].expand(tokens),
        None => Err(CompileError::UnknownMacro),
    }
}

/// The first binder of a variable is a position of the pattern that binds
/// it, and there is none exactly when no position at or after `from` does.
pub proof fn lemma_binder(pattern: Seq<Matcher>, var: Symbol, from: int)
    requires
        0 <= from,
    ensures
        match binder_from(pattern, var, from) {
            Some(i) => from <= i < pattern.len() && pattern[i] == Matcher::Bind(var),
            None => forall|j: int| from <= j < pattern.len() ==> pattern[j] != Matcher::Bind(var),
        },
    decreases pattern.len() - from,
{
    if from < pattern.len() && pattern[from] != Matcher::Bind(var) {
        lemma_binder(pattern, var, from + 1);
    }
}

/// The first matching rule is a rule that matches, no rule before it does,
/// and there is none exactly when no rule at or after `from` matches.
pub proof fn lemma_first_match(rules: Seq<RuleView>, tokens: Seq<Token>, from: int)
    requires
        0 <= from,
    ensures
        match first_match_from(rules, tokens, from) {
            Some(k) => from <= k < rules.len() && rules[k].matches(tokens) && forall|j: int|
                from <= j < k ==> !(#[trigger] rules[j]).matches(tokens),
            None => forall|j: int| from <= j < rules.len() ==> !(#[trigger] rules[j]).matches(tokens),
        },
    decreases rules.len() - from,
{
    if from < rules.len() && !rules[from].matches(tokens) {
        lemma_first_match(rules, tokens, from + 1);
    }
}

/// The latest macro of a name is declared under that name, no macro after
/// it is, and there is none exactly when no macro before `upto` is.
pub proof fn lemma_latest(defs: Seq<DefView>, name: Symbol, upto: int)
    requires
        upto <= defs.len(),
    ensures
        match latest_before(defs, name, upto) {
            Some(d) => 0 <= d < upto && defs[d].name == name && forall|j: int|
                d < j < upto ==> (#[trigger] defs[j]).name != name,
            None => forall|j: int| 0 <= j < upto ==> (#[trigger] defs[j]).name != name,
        },
    decreases upto,
{
    if upto > 0 && defs[upto - 1].name != name {
        lemma_latest(defs, name, upto - 1);
    }
}

/// Expansion goes by the order of the rules: an invocation is replaced by
/// the expansion of the first rule that matches it, whatever rules follow.
/// An invocation that no rule matches is an error, as is one of a name that
/// no macro was declared under. The declaration that counts is the last
/// under the name.
pub proof fn lemma_expansion(defs: Seq<DefView>, name: Symbol, tokens: Seq<Token>)
    ensures
        expansion(defs, name, tokens) == Err::<Seq<Token>, CompileError>(CompileError::UnknownMacro)
            <==> forall|d: int| 0 <= d < defs.len() ==> (#[trigger] defs[d]).name != name,
        forall|d: int, k: int|
            #![trigger defs[d].rules[k]]
            {
                &&& 0 <= d < defs.len()
                &&& defs[d].name == name
                &&& forall|j: int| d < j < defs.len() ==> (#[trigger] defs[j]).name != name
                &&& !defs[d].is_marker()
                &&& 0 <= k < defs[d].rules.len()
                &&& defs[d].rules[k].matches(tokens)
                &&& forall|j: int| 0 <= j < k ==> !(#[trigger] defs[d].rules[j]).matches(tokens)
            } ==> expansion(defs, name, tokens) == Ok::<Seq<Token>, CompileError>(
                defs[d].rules[k].transcribe(tokens),
            ),
        forall|d: int|
            {
                &&& 0 <= d < defs.len()
                &&& (#[trigger] defs[d]).name == name
                &&& forall|j: int| d < j < defs.len() ==> (#[trigger] defs[j]).name != name
                &&& !defs[d].is_marker()
            } ==> (expansion(defs, name, tokens) == Err::<Seq<Token>, CompileError>(
                CompileError::NoMatchingRule,
            ) <==> forall|k: int|
                0 <= k < defs[d].rules.len() ==> !(#[trigger] defs[d].rules[k]).matches(tokens)),
        forall|d: int|
            {
                &&& 0 <= d < defs.len()
                &&& (#[trigger] defs[d]).name == name
                &&& forall|j: int| d < j < defs.len() ==> (#[trigger] defs[j]).name != name
                &&& defs[d].is_marker()
            } ==> expansion(defs, name, tokens) == Ok::<Seq<Token>, CompileError>(unit_block()),
{
    lemma_latest(defs, name, defs.len() as int);
    match latest_before(defs, name, defs.len() as int) {
        Some(d) => {
            lemma_first_match(defs[d].rules, tokens, 0);
            assert forall|e: int|
                0 <= e < defs.len() && (#[trigger] defs[e]).name == name && (forall|j: int|
                    e < j < defs.len() ==> (#[trigger] defs[j]).name != name) implies e == d by {
                if e < d {
                    assert(defs[d].name == name);
                }
            }
        },
        None => {},
    }
}

impl Rule {
    /// Whether the invocation matches the rule's pattern.
    pub fn matches(&self, tokens: &Vec<Token>) -> (r: bool)
        ensures
            r == self@.matches(tokens@),
    {
        if self.pattern.len() != tokens.len() {
            return false;
        }
        let mut i: usize = 0;
        while i < self.pattern.len()
            invariant
                self.pattern.len() == tokens.len(),
                i <= self.pattern.len(),
                forall|j: int|
                    0 <= j < i ==> ((#[trigger] self.pattern@[j]) matches Matcher::Exact(t)
                        ==> tokens@[j] == t),
            decreases self.pattern.len() - i,
        {
            match self.pattern[i] {
                Matcher::Exact(t) => {
                    if tokens[i] != t {
                        return false;
                    }
                },
                Matcher::Bind(_) => {},
            }
            i = i + 1;
        }
        true
    }

    /// First position at which the pattern binds `var`.
    pub fn binder(&self, var: Symbol) -> (r: Option<usize>)
        ensures
            match r {
                Some(i) => binder_from(self.pattern@, var, 0) == Some(i as int),
                None => binder_from(self.pattern@, var, 0) is None,
            },
    {
        let mut i: usize = 0;
        while i < self.pattern.len()
            invariant
                i <= self.pattern.len(),
                binder_from(self.pattern@, var, 0) == binder_from(self.pattern@, var, i as int),
            decreases self.pattern.len() - i,
        {
            if self.pattern[i] == Matcher::Bind(var) {
                return Some(i);
            }
            i = i + 1;
        }
        None
    }

    /// The expansion with the tokens of a matching invocation filled in.
    pub fn transcribe(&self, tokens: &Vec<Token>) -> (r: Vec<Token>)
        requires
            self@.matches(tokens@),
        ensures
            r@ == self@.transcribe(tokens@),
    {
        let mut out: Vec<Token> = Vec::new();
        let mut k: usize = 0;
        while k < self.expansion.len()
            invariant
                self.pattern.len() == tokens.len(),
                k <= self.expansion.len(),
                out.len() == k,
                forall|j: int| 0 <= j < k ==> out@[j] == self@.transcribe_at(tokens@, j),
            decreases self.expansion.len() - k,
        {
            let token = match self.expansion[k] {
                Piece::Token(t) => t,
                Piece::Var(var) => {
                    proof {
                        lemma_binder(self.pattern@, var, 0);
                    }
                    match self.binder(var) {
                        Some(i) => tokens[i],
                        None => Token::Ident(var),
                    }
                },
            };
            out.push(token);
            k = k + 1;
        }
        assert(out@ =~= self@.transcribe(tokens@));
        out
    }
}

impl MacroDef {
    /// Whether the macro stands for the unit value wherever it is invoked.
    pub fn is_marker(&self) -> (r: bool)
        ensures
            r == self@.is_marker(),
    {
        if self.rules.len() != 1 {
            return false;
        }
        let rule = &self.rules[0];
        if rule.pattern.len() != 0 || rule.expansion.len() != 2 {
            return false;
        }
        let r = rule.expansion[0] == Piece::Token(Token::Open(Delim::Brace)) && rule.expansion[1]
            == Piece::Token(Token::Close(Delim::Brace));
        if r {
            assert(self@.rules[0].expansion =~= seq![
                Piece::Token(Token::Open(Delim::Brace)),
                Piece::Token(Token::Close(Delim::Brace)),
            ]);
        }
        r
    }

    /// Replaces an invocation of this macro by the expansion of the first
    /// rule that matches its tokens.
    pub fn expand(&self, tokens: &Vec<Token>) -> (r: Result<Vec<Token>, CompileError>)
        ensures
            match r {
                Ok(out) => self@.expand(tokens@) == Ok::<Seq<Token>, CompileError>(out@),
                Err(e) => self@.expand(tokens@) == Err::<Seq<Token>, CompileError>(e),
            },
    {
        if self.is_marker() {
            let mut out: Vec<Token> = Vec::new();
            out.push(Token::Open(Delim::Brace));
            out.push(Token::Close(Delim::Brace));
            assert(out@ =~= unit_block());
            return Ok(out);
        }
        let mut k: usize = 0;
        while k < self.rules.len()
            invariant
                !self@.is_marker(),
                k <= self.rules.len(),
                first_match_from(self@.rules, tokens@, 0) == first_match_from(
                    self@.rules,
                    tokens@,
                    k as int,
                ),
            decreases self.rules.len() - k,
        {
            if self.rules[k].matches(tokens) {
                return Ok(self.rules[k].transcribe(tokens));
            }
            k = k + 1;
        }
        Err(CompileError::NoMatchingRule)
    }
}

/// Replaces the invocation `name!(tokens)` by its expansion.
pub fn expand(defs: &Vec<MacroDef>, name: Symbol, tokens: &Vec<Token>) -> (r: Result<
    Vec<Token>,
    CompileError,
>)
    ensures
        match r {
            Ok(out) => expansion(def_views(defs@), name, tokens@) == Ok::<Seq<Token>, CompileError>(
                out@,
            ),
            Err(e) => expansion(def_views(defs@), name, tokens@) == Err::<Seq<Token>, CompileError>(
                e,
            ),
        },
{
    let mut upto: usize = defs.len();
    while upto > 0
        invariant
            upto <= defs.len(),
            latest_before(def_views(defs@), name, defs.len() as int) == latest_before(
                def_views(defs@),
                name,
                upto as int,
            ),
        decreases upto,
    {
        if defs[upto - 1].name == name {
            return defs[upto - 1].expand(tokens);
        }
        upto = upto - 1;
    }
    Err(CompileError::UnknownMacro)
}

} // verus!
