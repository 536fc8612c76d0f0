//! The linear output model: the ordered token stream that rendering produces,
//! the fits predicate over it, and its stringification.
use vstd::prelude::*;
use vstd::string::StrSliceExecFns;

verus! {

/// One token of the linear output: a text run, or a line break carrying the
/// indentation to place after it.
#[derive(Clone, Debug, PartialEq, Eq)]
pub enum SimpleDocElem {
    Text(String),
    Line(usize),
}

/// The mathematical form of a token: a line break carries its indentation as
/// an unbounded integer.
pub enum Token {
    Text(String),
    Line(int),
}

impl View for SimpleDocElem {
    type V = Token;

    open spec fn view(&self) -> Token {
        match *self {
            SimpleDocElem::Text(s) => Token::Text(s),
            SimpleDocElem::Line(n) => Token::Line(n as int),
        }
    }
}

/// The linear output of rendering: an append-only token sequence, viewed as a
/// `Seq` of [`Token`].
#[derive(Clone, Default, Debug, PartialEq, Eq)]
pub struct SimpleDoc(pub Vec<SimpleDocElem>);

impl View for SimpleDoc {
    type V = Seq<Token>;

    open spec fn view(&self) -> Seq<Token> {
        self.0@.map(|i: int, e: SimpleDocElem| e@)
    }
}

/// The fits predicate over a token stream and a remaining width: each text run
/// spends its length from the budget, and the stream fails to fit as soon as
/// the budget would go negative; the first line break ends the scan and
/// accepts, since everything after it lies on another line.
pub open spec fn fits_at(s: Seq<Token>, w: int) -> bool
    decreases s.len(),
{
    if s.len() == 0 {
        true
    } else {
        match s[0] {
            Token::Text(t) => t@.len() <= w && fits_at(s.drop_first(), w - t@.len()),
            Token::Line(_) => true,
        }
    }
}

/// A run of `n` space characters (empty when `n` is negative).
pub open spec fn spaces(n: int) -> Seq<char> {
    Seq::new(if n >= 0 { n as nat } else { 0 }, |i: int| ' ')
}

/// The stringification of one token: a text run verbatim; a line break as a
/// newline followed by exactly its indentation's spaces.
pub open spec fn token_str(t: Token) -> Seq<char> {
    match t {
        Token::Text(s) => s@,
        Token::Line(n) => seq!['\n'] + spaces(n),
    }
}

/// The stringification of a token stream: its tokens' strings, in order.
pub open spec fn render_str(s: Seq<Token>) -> Seq<char>
    decreases s.len(),
{
    if s.len() == 0 {
        Seq::<char>::empty()
    } else {
        token_str(s[0]) + render_str(s.drop_first())
    }
}

/// Stringification distributes over concatenation of token streams.
pub proof fn lemma_render_str_append(a: Seq<Token>, b: Seq<Token>)
    ensures
        render_str(a + b) == render_str(a) + render_str(b),
    decreases a.len(),
{
    if a.len() == 0 {
        assert(a + b =~= b);
        assert(render_str(a) + render_str(b) =~= render_str(b));
    } else {
        assert((a + b)[0] == a[0]);
        assert((a + b).drop_first() =~= a.drop_first() + b);
        lemma_render_str_append(a.drop_first(), b);
        assert(token_str(a[0]) + (render_str(a.drop_first()) + render_str(b)) =~= (token_str(a[0])
            + render_str(a.drop_first())) + render_str(b));
    }
}

/// A token that is a text run without a literal newline.
pub open spec fn token_newline_free(t: Token) -> bool {
    t matches Token::Text(x) && forall|i: int| 0 <= i < x@.len() ==> x@[i] != '\n'
}

/// A stream of newline-free text runs stringifies to a string without a
/// newline character.
pub proof fn lemma_render_str_newline_free(s: Seq<Token>)
    requires
        forall|i: int| 0 <= i < s.len() ==> token_newline_free(#[trigger] s[i]),
    ensures
        forall|j: int| 0 <= j < render_str(s).len() ==> render_str(s)[j] != '\n',
    decreases s.len(),
{
    if s.len() != 0 {
        assert(token_newline_free(s[0]));
        assert forall|i: int| 0 <= i < s.drop_first().len() implies token_newline_free(
            #[trigger] s.drop_first()[i],
        ) by {
            assert(s.drop_first()[i] == s[i + 1]);
        }
        lemma_render_str_newline_free(s.drop_first());
        let x = s[0]->Text_0;
        assert forall|j: int| 0 <= j < render_str(s).len() implies render_str(s)[j] != '\n' by {
            if j < x@.len() {
                assert(render_str(s)[j] == x@[j]);
            } else {
                assert(render_str(s)[j] == render_str(s.drop_first())[j - x@.len()]);
            }
        }
    }
}

/// Indentation propagation, at the renderer: after a line-break token the
/// rendered text continues with one newline and then exactly the token's
/// indentation in spaces, so the next text run starts at that column.
pub proof fn lemma_line_token_column(n: int, rest: Seq<Token>)
    requires
        n >= 0,
    ensures
        render_str(seq![Token::Line(n)] + rest) == seq!['\n'] + spaces(n) + render_str(rest),
        spaces(n).len() == n,
        forall|i: int| 0 <= i < n ==> spaces(n)[i] == ' ',
{
    assert((seq![Token::Line(n)] + rest)[0] == Token::Line(n));
    assert((seq![Token::Line(n)] + rest).drop_first() =~= rest);
    assert(render_str(seq![Token::Line(n)] + rest) == token_str(Token::Line(n)) + render_str(rest));
    assert(seq!['\n'] + spaces(n) + render_str(rest) =~= (seq!['\n'] + spaces(n)) + render_str(
        rest,
    ));
}

impl SimpleDoc {
    /// Does the stream fit in a remaining width of `w`? See [`fits_at`].
    pub fn fits(&self, w: i64) -> (b: bool)
        ensures
            b == fits_at(self@, w as int),
    {
        let mut i: usize = 0;
        let mut remaining: i64 = w;
        proof {
            assert(self@.skip(0) =~= self@);
        }
        while i < self.0.len()
            invariant
                0 <= i <= self.0.len(),
                fits_at(self@, w as int) == fits_at(self@.skip(i as int), remaining as int),
            decreases self.0.len() - i,
        {
            proof {
                assert(self@.skip(i as int)[0] == self@[i as int]);
                assert(self@.skip(i as int).drop_first() =~= self@.skip(i as int + 1));
            }
            match &self.0[i] {
                SimpleDocElem::Text(t) => {
                    let tlen = t.as_str().unicode_len();
                    if remaining < 0 || tlen as u64 > remaining as u64 {
                        return false;
                    }
                    remaining = remaining - tlen as i64;
                },
                SimpleDocElem::Line(_) => {
                    return true;
                },
            }
            i = i + 1;
        }
        true
    }

    /// Append one token.
    pub fn add(&mut self, elem: SimpleDocElem)
        ensures
            final(self)@ == old(self)@.push(elem@),
    {
        let ghost v = elem@;
        self.0.push(elem);
        proof {
            assert(self@ =~= old(self)@.push(v));
        }
    }

    /// Append every token of `other`, in order.
    pub fn append(&mut self, other: SimpleDoc)
        ensures
            final(self)@ == old(self)@ + other@,
    {
        let ghost o = other@;
        let mut tail = other;
        self.0.append(&mut tail.0);
        proof {
            assert(self@ =~= old(self)@ + o);
        }
    }

    /// Stringify the stream: text runs verbatim, each line break as a newline
    /// followed by its indentation's spaces.
    pub fn to_string(&self) -> (r: String)
        ensures
            r@ == render_str(self@),
    {
        let mut r = String::new();
        let mut i: usize = 0;
        proof {
            assert(self@.take(0) =~= Seq::<Token>::empty());
        }
        while i < self.0.len()
            invariant
                0 <= i <= self.0.len(),
                r@ == render_str(self@.take(i as int)),
            decreases self.0.len() - i,
        {
            match &self.0[i] {
                SimpleDocElem::Text(t) => {
                    r.append(t.as_str());
                },
                SimpleDocElem::Line(n) => {
                    proof {
                        reveal_strlit("\n");
                        assert("\n"@ =~= seq!['\n']);
                    }
                    r.append("\n");
                    let nested = *n;
                    let ghost base = r@;
                    let mut k: usize = 0;
                    proof {
                        assert(spaces(0) =~= Seq::<char>::empty());
                        assert(r@ =~= base + spaces(0));
                    }
                    while k < nested
                        invariant
                            0 <= k <= nested,
                            r@ == base + spaces(k as int),
                        decreases nested - k,
                    {
                        proof {
                            reveal_strlit(" ");
                            assert(" "@ =~= seq![' ']);
                            assert(spaces(k as int + 1) =~= spaces(k as int) + seq![' ']);
                            assert(base + spaces(k as int + 1) =~= (base + spaces(k as int))
                                + seq![' ']);
                        }
                        r.append(" ");
                        k = k + 1;
                    }
                },
            }
            proof {
                assert(self@.take(i as int + 1) =~= self@.take(i as int) + seq![self@[i as int]]);
                lemma_render_str_append(self@.take(i as int), seq![self@[i as int]]);
                assert(seq![self@[i as int]].drop_first() =~= Seq::<Token>::empty());
                assert(render_str(seq![self@[i as int]]) == token_str(self@[i as int]) + render_str(
                    Seq::<Token>::empty(),
                ));
                assert(token_str(self@[i as int]) + render_str(Seq::<Token>::empty())
                    =~= token_str(self@[i as int]));
            }
            i = i + 1;
        }
        proof {
            assert(self@.take(self.0.len() as int) =~= self@);
        }
        r
    }
}

} // verus!
