use std::rc::Rc;

use vstd::prelude::*;

use super::lex::{Symbol, SymbolView, Token};

verus! {

/// A slice of the token stream.
pub type Tokens<'a> = &'a [Token<'a>];

/// A list of symbols at which a reader gives up instead of skipping ahead.
#[derive(Debug)]
pub enum Deny<'a> {
    Cons(Symbol<'a>, Rc<Deny<'a>>),
    Nil,
}

/// `Rc::clone`: a new pointer to the same value.
#[verifier::external_body]
fn rc_clone<T>(rc: &Rc<T>) -> (res: Rc<T>)
    ensures
        res == *rc,
{
    Rc::clone(rc)
}

impl<'a> Deny<'a> {
    /// The denied symbols, most recently inserted first.
    pub open spec fn symbols(self) -> Seq<SymbolView>
        decreases self,
    {
        match self {
            Deny::Cons(value, tail) => seq![value@] + (*tail).symbols(),
            Deny::Nil => Seq::empty(),
        }
    }

    pub fn new() -> (deny: Self)
        ensures
            deny.symbols() == Seq::<SymbolView>::empty(),
    {
        Deny::Nil
    }

    /// A list that denies `token` as well as everything this list denies.
    pub fn insert(&self, token: Symbol<'a>) -> (deny: Self)
        ensures
            deny.symbols() == seq![token@] + self.symbols(),
    {
        Self::Cons(token, Rc::new(self.clone()))
    }

    fn contains_symbol(&self, token: &Symbol<'a>) -> (found: bool)
        ensures
            found == self.symbols().contains(token@),
        decreases self,
    {
        match self {
            Deny::Cons(value, tail) => {
                let found = *token == *value || tail.contains_symbol(token);
                proof {
                    let s = self.symbols();
                    assert(s[0] == value@);
                    assert(s.drop_first() =~= (**tail).symbols());
                    if s.contains(token@) && token@ != value@ {
                        let k = choose|k: int| 0 <= k < s.len() && s[k] == token@;
                        assert((**tail).symbols()[k - 1] == token@);
                    }
                }
                found
            },
            Deny::Nil => false,
        }
    }
}

impl<'a> Clone for Deny<'a> {
    fn clone(&self) -> (res: Self)
        ensures
            res == *self,
    {
        match self {
            Deny::Cons(value, tail) => Deny::Cons(*value, rc_clone(tail)),
            Deny::Nil => Deny::Nil,
        }
    }
}

/// A set of symbols that can be asked whether it holds a symbol.
pub trait Contains<'a> {
    spec fn spec_contains(&self, symbol: SymbolView) -> bool;

    fn contains(&self, token: &'a Symbol<'a>) -> (found: bool)
        ensures
            found == self.spec_contains(token@),
    ;
}

impl<'a> Contains<'a> for Deny<'a> {
    open spec fn spec_contains(&self, symbol: SymbolView) -> bool {
        self.symbols().contains(symbol)
    }

    fn contains(&self, token: &'a Symbol<'a>) -> (found: bool) {
        self.contains_symbol(token)
    }
}

impl<'a, 'b> Contains<'a> for &'b Deny<'a> {
    open spec fn spec_contains(&self, symbol: SymbolView) -> bool {
        (**self).symbols().contains(symbol)
    }

    fn contains(&self, token: &'a Symbol<'a>) -> (found: bool) {
        (**self).contains_symbol(token)
    }
}

/// A list made by `insert` denies the inserted symbol, and denies any other
/// symbol exactly when the list it was made from denies it; a list made by
/// `new` denies nothing.
pub proof fn law_deny_insert_contains<'a>(
    empty: Deny<'a>,
    deny: Deny<'a>,
    grown: Deny<'a>,
    inserted: SymbolView,
    other: SymbolView,
)
    requires
        empty.symbols() == Seq::<SymbolView>::empty(),
        grown.symbols() == seq![inserted] + deny.symbols(),
    ensures
        !empty.spec_contains(other),
        grown.spec_contains(inserted),
        other != inserted ==> (grown.spec_contains(other) == deny.spec_contains(other)),
{
    let s = grown.symbols();
    assert(s[0] == inserted);
    if other != inserted {
        if s.contains(other) {
            let k = choose|k: int| 0 <= k < s.len() && s[k] == other;
            assert(deny.symbols()[k - 1] == other);
        }
        if deny.symbols().contains(other) {
            let k = choose|k: int| 0 <= k < deny.symbols().len() && deny.symbols()[k] == other;
            assert(s[k + 1] == other);
        }
    }
}

/// The parse distance of the tokens `from..to`: the number of tokens among
/// them that are not layout.
pub open spec fn skipped_dist<'a>(tokens: Seq<Token<'a>>, from: int, to: int) -> nat
    decreases to - from,
{
    if from < to {
        skipped_dist(tokens, from, to - 1) + tokens[to - 1].symbol@.dist()
    } else {
        0
    }
}

proof fn lemma_skipped_dist_bound<'a>(tokens: Seq<Token<'a>>, from: int, to: int)
    ensures
        from <= to ==> skipped_dist(tokens, from, to) <= to - from,
    decreases to - from,
{
    if from < to {
        lemma_skipped_dist_bound(tokens, from, to - 1);
    }
}

/// A reading represents a contiguous sequence of one or more tokens read from the
/// input stream by a Run instance, ending at the token that satisfied the read
/// condition.
///
#[derive(Debug)]
pub struct Reading<'a> {
    pub dist: usize,
    pub source: Run<'a>,
    pub index_from: usize,
    pub index_to: usize,
}

impl<'a> Reading<'a> {
    /// The reading starts where its source run stands and ends inside the stream.
    pub open spec fn wf(&self) -> bool {
        &&& self.source.wf()
        &&& self.index_from == self.source.position
        &&& self.index_from < self.index_to <= self.source.tokens@.len()
        &&& self.dist <= self.index_to - 1 - self.index_from
    }

    /// The tokens of the reading before its last one: those skipped on the way
    /// to the token that satisfied the read condition.
    pub fn init(&self) -> (init: Tokens<'a>)
        requires
            self.wf(),
        ensures
            init@ == self.source.tokens@.subrange(self.index_from as int, self.index_to - 1),
    {
        &self.source.tokens[self.index_from..self.index_to - 1]
    }

    /// The token that satisfied the read condition.
    pub fn last(&self) -> (last: &'a Token<'a>)
        requires
            self.wf(),
        ensures
            *last == self.source.tokens@[self.index_to - 1],
    {
        &self.source.tokens[self.index_to - 1]
    }

    /// The symbol of the token that satisfied the read condition.
    pub fn symbol(&self) -> (symbol: &'a Symbol<'a>)
        requires
            self.wf(),
        ensures
            *symbol == self.source.tokens@[self.index_to - 1].symbol,
    {
        &self.source.tokens[self.index_to - 1].symbol
    }

    /// The symbol of the token after the reading, if there is one.
    pub fn peek_symbol(&self) -> (symbol: Option<&'a Symbol<'a>>)
        requires
            self.wf(),
        ensures
            self.index_to < self.source.tokens@.len() ==> symbol == Some(
                &self.source.tokens@[self.index_to as int].symbol,
            ),
            self.index_to >= self.source.tokens@.len() ==> symbol is None,
    {
        if self.index_to < self.source.tokens.len() {
            Some(&self.source.tokens[self.index_to].symbol)
        } else {
            None
        }
    }

    /// Gives up the reading: the run as it was before it.
    pub fn revert(self) -> (run: Run<'a>)
        ensures
            run == self.source,
    {
        self.source
    }

    /// Accepts the reading: the run continues after its last token, with the
    /// distance of the skipped tokens added.
    pub fn cont(self) -> (run: Run<'a>)
        requires
            self.wf(),
        ensures
            run.wf(),
            run.tokens == self.source.tokens,
            run.position == self.index_to,
            run.dist == self.source.dist + self.dist,
    {
        Run {
            dist: self.source.dist + self.dist,
            tokens: &self.source.tokens,
            position: self.index_to,
        }
    }

    pub fn index_from(&self) -> (i: usize)
        ensures
            i == self.index_from,
    {
        self.index_from
    }

    pub fn index_to(&self) -> (i: usize)
        ensures
            i == self.index_to,
    {
        self.index_to
    }
}

/// The outcome of a read: a value and the reading that produced it, or the
/// unchanged run when nothing was read.
pub enum ReadResult<'a, T> {
    Found(T, Reading<'a>),
    NotFound(Run<'a>),
}

impl<'a, T> ReadResult<'a, T> {
    pub fn is_some(&self) -> (some: bool)
        ensures
            some == (self is Found),
    {
        matches!(self, ReadResult::Found(_, _))
    }

    pub fn is_none(&self) -> (none: bool)
        ensures
            none == (self is NotFound),
    {
        matches!(self, ReadResult::NotFound(_))
    }
}

/// A position in a token stream, with the distance accumulated so far.
#[derive(Clone, Copy, Debug)]
pub struct Run<'a> {
    /// A penalty score representing the number of skipped tokens
    pub dist: usize,

    /// All tokens in the input stream
    pub tokens: Tokens<'a>,

    /// Current position in the token stream
    pub position: usize,
}

impl<'a> Run<'a> {
    /// The position lies inside the stream (or at its end), and the distance
    /// is at most the number of tokens before it.
    pub open spec fn wf(&self) -> bool {
        &&& self.position <= self.tokens@.len()
        &&& self.dist <= self.position
    }

    pub fn new(input: Tokens<'a>) -> (run: Self)
        ensures
            run.wf(),
            run.dist == 0,
            run.tokens == input,
            run.position == 0,
    {
        Run { dist: 0, tokens: input, position: 0 }
    }

    pub fn position(&self) -> (p: usize)
        ensures
            p == self.position,
    {
        self.position
    }

    fn stream(&self) -> (stream: Tokens<'a>)
        requires
            self.wf(),
        ensures
            stream@ == self.tokens@.subrange(self.position as int, self.tokens@.len() as int),
    {
        &self.tokens[self.position..self.tokens.len()]
    }

    pub fn dist(&self) -> (d: usize)
        ensures
            d == self.dist,
    {
        self.dist
    }

    pub fn remaining_input_len(&self) -> (n: usize)
        requires
            self.wf(),
        ensures
            n == self.tokens@.len() - self.position,
    {
        self.tokens.len() - self.position
    }

    /// Reads the next token from the input stream.
    ///
    /// When there is a next token, a `ReadResult::Found` variant is returned,
    /// holding the token's `Symbol` and a `Reading` that covers exactly that
    /// token. At the end of the stream, `ReadResult::NotFound` returns the run
    /// unchanged.
    pub fn consume(self) -> (res: ReadResult<'a, &'a Symbol<'a>>)
        requires
            self.wf(),
        ensures
            self.position < self.tokens@.len() ==> (res matches ReadResult::Found(symbol, reading) && {
                &&& *symbol == self.tokens@[self.position as int].symbol
                &&& reading.wf()
                &&& reading.source == self
                &&& reading.index_to == self.position + 1
                &&& reading.dist == 0
            }),
            self.position >= self.tokens@.len() ==> res == ReadResult::<'a, &'a Symbol<'a>>::NotFound(self),
    {
        if self.position < self.tokens.len() {
            let symbol = &self.tokens[self.position].symbol;
            ReadResult::Found(
                symbol,
                Reading { dist: 0, index_from: self.position, index_to: self.position + 1, source: self },
            )
        } else {
            ReadResult::NotFound(self)
        }
    }

    /// Reads the next token when `pred` holds of its symbol.
    pub fn consume_if_true(self, pred: impl Fn(&Symbol<'a>) -> bool) -> (res: ReadResult<'a, ()>)
        requires
            self.wf(),
            forall|s: &Symbol<'a>| call_requires(pred, (s,)),
        ensures
            match res {
                ReadResult::Found(_, reading) => {
                    &&& reading.wf()
                    &&& reading.source == self
                    &&& reading.index_to == self.position + 1
                    &&& reading.dist == 0
                    &&& call_ensures(pred, (&self.tokens@[self.position as int].symbol,), true)
                },
                ReadResult::NotFound(run) => {
                    &&& run == self
                    &&& self.position < self.tokens@.len() ==> call_ensures(
                        pred,
                        (&self.tokens@[self.position as int].symbol,),
                        false,
                    )
                },
            },
    {
        if self.position < self.tokens.len() {
            let token = &self.tokens[self.position];
            if pred(&token.symbol) {
                return ReadResult::Found(
                    (),
                    Reading {
                        dist: 0,
                        index_from: self.position,
                        index_to: self.position + 1,
                        source: self,
                    },
                );
            }
        }
        ReadResult::NotFound(self)
    }

    /// Reads ahead to the first token whose symbol satisfies `pred`, skipping the
    /// tokens before it, unless a denied symbol comes first.
    pub fn read_where_true(
        self,
        pred: impl Fn(&Symbol<'a>) -> bool,
        deny: impl Contains<'a>,
    ) -> (res: ReadResult<'a, ()>)
        requires
            self.wf(),
            forall|s: &Symbol<'a>| call_requires(pred, (s,)),
        ensures
            match res {
                ReadResult::Found(_, reading) => {
                    &&& reading.wf()
                    &&& reading.source == self
                    &&& reading.dist == skipped_dist(
                        self.tokens@,
                        self.position as int,
                        reading.index_to - 1,
                    )
                    &&& call_ensures(pred, (&self.tokens@[reading.index_to - 1].symbol,), true)
                    &&& forall|j: int|
                        self.position <= j < reading.index_to - 1 ==> {
                            &&& call_ensures(pred, (&#[trigger] self.tokens@[j].symbol,), false)
                            &&& !deny.spec_contains(self.tokens@[j].symbol@)
                        }
                },
                ReadResult::NotFound(run) => {
                    &&& run == self
                    &&& forall|j: int|
                        self.position <= j < self.tokens@.len() && (forall|k: int|
                            self.position <= k < j ==> !deny.spec_contains(
                                #[trigger] self.tokens@[k].symbol@,
                            )) ==> call_ensures(
                            pred,
                            (&#[trigger] self.tokens@[j].symbol,),
                            false,
                        )
                },
            },
    {
        let mut dist: usize = 0;
        let mut idx: usize = self.position;

        while idx < self.tokens.len()
            invariant
                self.wf(),
                forall|s: &Symbol<'a>| call_requires(pred, (s,)),
                self.position <= idx <= self.tokens@.len(),
                dist == skipped_dist(self.tokens@, self.position as int, idx as int),
                forall|j: int|
                    self.position <= j < idx ==> {
                        &&& call_ensures(pred, (&#[trigger] self.tokens@[j].symbol,), false)
                        &&& !deny.spec_contains(self.tokens@[j].symbol@)
                    },
            decreases self.tokens@.len() - idx,
        {
            let token = &self.tokens[idx];

            if pred(&token.symbol) {
                proof {
                    lemma_skipped_dist_bound(self.tokens@, self.position as int, idx as int);
                }
                return ReadResult::Found(
                    (),
                    Reading { dist, index_from: self.position, index_to: idx + 1, source: self },
                );
            }

            if deny.contains(&token.symbol) {
                return ReadResult::NotFound(self);
            }

            proof {
                lemma_skipped_dist_bound(self.tokens@, self.position as int, idx as int);
            }
            dist = dist + token.dist();
            idx = idx + 1;
        }

        ReadResult::NotFound(self)
    }

    /// Reads ahead to the first token for whose symbol `pred` gives a value,
    /// skipping the tokens before it, unless a denied symbol comes first.
    pub fn read_where_some<T>(
        self,
        pred: impl Fn(&Symbol<'a>) -> Option<T>,
        deny: impl Contains<'a>,
    ) -> (res: ReadResult<'a, T>)
        requires
            self.wf(),
            forall|s: &Symbol<'a>| call_requires(pred, (s,)),
        ensures
            match res {
                ReadResult::Found(value, reading) => {
                    &&& reading.wf()
                    &&& reading.source == self
                    &&& reading.dist == skipped_dist(
                        self.tokens@,
                        self.position as int,
                        reading.index_to - 1,
                    )
                    &&& call_ensures(
                        pred,
                        (&self.tokens@[reading.index_to - 1].symbol,),
                        Some(value),
                    )
                    &&& forall|j: int|
                        self.position <= j < reading.index_to - 1 ==> {
                            &&& call_ensures(
                                pred,
                                (&#[trigger] self.tokens@[j].symbol,),
                                None::<T>,
                            )
                            &&& !deny.spec_contains(self.tokens@[j].symbol@)
                        }
                },
                ReadResult::NotFound(run) => {
                    &&& run == self
                    &&& forall|j: int|
                        self.position <= j < self.tokens@.len() && (forall|k: int|
                            self.position <= k < j ==> !deny.spec_contains(
                                #[trigger] self.tokens@[k].symbol@,
                            )) ==> call_ensures(
                            pred,
                            (&#[trigger] self.tokens@[j].symbol,),
                            None::<T>,
                        )
                },
            },
    {
        let mut dist: usize = 0;
        let mut idx: usize = self.position;

        while idx < self.tokens.len()
            invariant
                self.wf(),
                forall|s: &Symbol<'a>| call_requires(pred, (s,)),
                self.position <= idx <= self.tokens@.len(),
                dist == skipped_dist(self.tokens@, self.position as int, idx as int),
                forall|j: int|
                    self.position <= j < idx ==> {
                        &&& call_ensures(pred, (&#[trigger] self.tokens@[j].symbol,), None::<T>)
                        &&& !deny.spec_contains(self.tokens@[j].symbol@)
                    },
            decreases self.tokens@.len() - idx,
        {
            let token = &self.tokens[idx];

            if let Some(value) = pred(&token.symbol) {
                proof {
                    lemma_skipped_dist_bound(self.tokens@, self.position as int, idx as int);
                }
                return ReadResult::Found(
                    value,
                    Reading { dist, index_from: self.position, index_to: idx + 1, source: self },
                );
            }

            if deny.contains(&token.symbol) {
                return ReadResult::NotFound(self);
            }

            proof {
                lemma_skipped_dist_bound(self.tokens@, self.position as int, idx as int);
            }
            dist = dist + token.dist();
            idx = idx + 1;
        }

        ReadResult::NotFound(self)
    }
}

} // verus!
