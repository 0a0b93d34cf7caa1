//! General laws of the tokenizer, proved against the specification model in
//! [`crate::lexer`].

use vstd::prelude::*;

use crate::lexer::{
    is_boundary_char, is_symbol_char, is_word_char, kw_fn, kw_let, lex_rec, spec_classify,
    spec_flush, spec_lex, symbol_token_view, type_name_bool, type_name_char, type_name_int,
    type_name_string, LexerError, TokenView,
};

verus! {

/// Whether the classifier turns a word into an identifier token: a non-empty
/// run of word characters that is neither a keyword nor a type name.
pub open spec fn classifies_as_identifier(w: Seq<char>) -> bool {
    match spec_classify(w) {
        Option::Some(t) => t is Identifier,
        Option::None => false,
    }
}

/// The empty word yields no token: it is shorter than every keyword and
/// type name, and the classifier maps it to the idle outcome.
proof fn lemma_classify_empty()
    ensures
        spec_classify(Seq::<char>::empty()) is None,
{
    assert(kw_fn().len() == 2);
    assert(kw_let().len() == 3);
    assert(type_name_string().len() == 6);
    assert(type_name_int().len() == 3);
    assert(type_name_bool().len() == 4);
    assert(type_name_char().len() == 4);
}

/// A word character is never a word boundary.
proof fn lemma_word_char_not_boundary(c: char)
    requires
        is_word_char(c),
    ensures
        !is_boundary_char(c),
{
}

/// Every non-empty word made only of word characters classifies as some
/// token — keyword, type name or identifier, never "no token" — so the only
/// words the tokenizer silently drops are the empty word between separators
/// and words holding a character that is not a word character.
pub proof fn lemma_classification_total(w: Seq<char>)
    requires
        w.len() > 0,
        forall|k: int| 0 <= k < w.len() ==> is_word_char(w[k]),
    ensures
        spec_classify(w) is Some,
{
}

/// Tokenizing depends on the input text alone: equal inputs have equal
/// results.  [`crate::lexer::lex`] promises exactly the result of
/// [`spec_lex`] on the view of its input, so two runs over the same text
/// return the same token sequence or the same error.
pub proof fn lemma_deterministic(s1: Seq<char>, s2: Seq<char>)
    requires
        s1 == s2,
    ensures
        spec_lex(s1) == spec_lex(s2),
{
}

/// Scanning the word `s[p..j]` with nothing emitted yet ends in the
/// malformed-start error: the induction runs over the characters of the
/// word, the accumulator holding exactly the part already read.
proof fn lemma_leading_aux_word(s: Seq<char>, p: int, j: int, i: int)
    requires
        0 <= p <= i <= j <= s.len(),
        p < j,
        j < s.len() ==> is_boundary_char(s[j]),
        classifies_as_identifier(s.subrange(p, j)),
        forall|k: int| p <= k < j ==> !is_boundary_char(s[k]),
    ensures
        lex_rec(s.subrange(i, s.len() as int), s.subrange(p, i), Seq::empty()) == Result::<
            Seq<TokenView>,
            LexerError,
        >::Err(LexerError::InvalidToken),
    decreases j - i,
{
    let rest = s.subrange(i, s.len() as int);
    let word = s.subrange(p, i);
    if i == j {
        if j == s.len() {
            assert(rest =~= Seq::<char>::empty());
        } else {
            assert(rest[0] == s[j]);
        }
    } else {
        assert(rest[0] == s[i]);
        assert(rest.drop_first() =~= s.subrange(i + 1, s.len() as int));
        assert(word.push(s[i]) =~= s.subrange(p, i + 1));
        lemma_leading_aux_word(s, p, j, i + 1);
    }
}

/// Scanning the spaces before the word changes nothing: the accumulator and
/// the output both stay empty.
proof fn lemma_leading_aux_spaces(s: Seq<char>, p: int, j: int, i: int)
    requires
        0 <= i <= p < j <= s.len(),
        forall|k: int| 0 <= k < p ==> s[k] == ' ',
        j < s.len() ==> is_boundary_char(s[j]),
        classifies_as_identifier(s.subrange(p, j)),
        forall|k: int| p <= k < j ==> !is_boundary_char(s[k]),
    ensures
        lex_rec(s.subrange(i, s.len() as int), Seq::empty(), Seq::empty()) == Result::<
            Seq<TokenView>,
            LexerError,
        >::Err(LexerError::InvalidToken),
    decreases p - i,
{
    let rest = s.subrange(i, s.len() as int);
    if i == p {
        assert(s.subrange(p, p) =~= Seq::<char>::empty());
        lemma_leading_aux_word(s, p, j, p);
    } else {
        assert(rest[0] == ' ');
        lemma_classify_empty();
        assert(rest.drop_first() =~= s.subrange(i + 1, s.len() as int));
        lemma_leading_aux_spaces(s, p, j, i + 1);
    }
}

/// Leading-identifier rejection: when the first lexical unit of the input —
/// the first maximal run of non-boundary characters, preceded only by
/// spaces — classifies as an identifier, tokenizing fails with
/// [`LexerError::InvalidToken`], whatever follows.
pub proof fn lemma_leading_identifier_rejected(s: Seq<char>, p: int, j: int)
    requires
        0 <= p < j <= s.len(),
        forall|k: int| 0 <= k < p ==> s[k] == ' ',
        j < s.len() ==> is_boundary_char(s[j]),
        classifies_as_identifier(s.subrange(p, j)),
    ensures
        spec_lex(s) == Result::<Seq<TokenView>, LexerError>::Err(LexerError::InvalidToken),
{
    let w = s.subrange(p, j);
    assert forall|k: int| p <= k < j implies !is_boundary_char(s[k]) by {
        assert(is_word_char(w[k - p]));
        lemma_word_char_not_boundary(s[k]);
    }
    lemma_leading_aux_spaces(s, p, j, 0);
    assert(s.subrange(0, s.len() as int) =~= s);
}

/// Through the whole scan, the first emitted token — once one exists — stays
/// in place and is never an identifier.
proof fn lemma_first_token_aux(rest: Seq<char>, w: Seq<char>, out: Seq<TokenView>)
    requires
        out.len() > 0 ==> !(out[0] is Identifier),
    ensures
        match lex_rec(rest, w, out) {
            Result::Ok(r) => (r.len() > 0 ==> !(r[0] is Identifier)) && (out.len() > 0 ==> r.len()
                > 0 && r[0] == out[0]),
            Result::Err(e) => true,
        },
    decreases rest.len(),
{
    if rest.len() == 0 {
    } else {
        let c = rest[0];
        if is_symbol_char(c) {
            match spec_flush(w, out) {
                Result::Err(e) => {},
                Result::Ok(o2) => {
                    lemma_first_token_aux(
                        rest.drop_first(),
                        Seq::empty(),
                        o2.push(symbol_token_view(c)),
                    );
                },
            }
        } else if c == ' ' {
            match spec_flush(w, out) {
                Result::Err(e) => {},
                Result::Ok(o2) => {
                    lemma_first_token_aux(rest.drop_first(), Seq::empty(), o2);
                },
            }
        } else {
            lemma_first_token_aux(rest.drop_first(), w.push(c), out);
        }
    }
}

/// The first token of any non-empty valid sequence is never an identifier:
/// a program must open with a keyword, a type name or a symbol.
pub proof fn lemma_first_token_never_identifier(s: Seq<char>)
    ensures
        match spec_lex(s) {
            Result::Ok(toks) => toks.len() > 0 ==> !(toks[0] is Identifier),
            Result::Err(e) => true,
        },
{
    lemma_first_token_aux(s, Seq::empty(), Seq::empty());
}

/// A space scanned while the accumulator is empty is a no-op.
proof fn lemma_space_empty_word(post: Seq<char>, out: Seq<TokenView>)
    ensures
        lex_rec(seq![' '].add(post), Seq::empty(), out) == lex_rec(post, Seq::empty(), out),
{
    let s = seq![' '].add(post);
    assert(s[0] == ' ');
    assert(!is_symbol_char(' '));
    lemma_classify_empty();
    assert(s.drop_first() =~= post);
}

/// A space scanned just before a boundary — or at the very end — changes
/// nothing: it flushes the pending word exactly as the boundary itself, or
/// the end of the input, is about to.
proof fn lemma_space_before_boundary(rest: Seq<char>, w: Seq<char>, out: Seq<TokenView>)
    requires
        rest.len() == 0 || is_boundary_char(rest[0]),
    ensures
        lex_rec(seq![' '].add(rest), w, out) == lex_rec(rest, w, out),
{
    let s = seq![' '].add(rest);
    assert(s[0] == ' ');
    assert(!is_symbol_char(' '));
    lemma_classify_empty();
    assert(s.drop_first() =~= rest);
    match spec_flush(w, out) {
        Result::Err(e) => {},
        Result::Ok(o2) => {
            if rest.len() == 0 {
                assert(lex_rec(s, w, out) == lex_rec(rest, Seq::empty(), o2));
            }
        },
    }
}

/// A space scanned just after a boundary changes nothing: the boundary has
/// already flushed the word, so the space meets an empty accumulator.
proof fn lemma_boundary_then_space(b: char, post: Seq<char>, w: Seq<char>, out: Seq<TokenView>)
    requires
        is_boundary_char(b),
    ensures
        lex_rec(seq![b, ' '].add(post), w, out) == lex_rec(seq![b].add(post), w, out),
{
    let sl = seq![b, ' '].add(post);
    let sr = seq![b].add(post);
    assert(sl[0] == b);
    assert(sr[0] == b);
    assert(sl.drop_first() =~= seq![' '].add(post));
    assert(sr.drop_first() =~= post);
    match spec_flush(w, out) {
        Result::Err(e) => {},
        Result::Ok(o2) => {
            if is_symbol_char(b) {
                lemma_space_empty_word(post, o2.push(symbol_token_view(b)));
            } else {
                lemma_space_empty_word(post, o2);
            }
        },
    }
}

/// Scanning a common prefix keeps two continuations equal: when two suffixes
/// tokenize alike from every accumulator and output, so do the inputs made
/// by putting the same prefix before each.
proof fn lemma_prefix_congruence(
    pre: Seq<char>,
    a: Seq<char>,
    b: Seq<char>,
    w: Seq<char>,
    out: Seq<TokenView>,
)
    requires
        forall|w2: Seq<char>, out2: Seq<TokenView>| #[trigger] lex_rec(a, w2, out2) == lex_rec(
            b,
            w2,
            out2,
        ),
    ensures
        lex_rec(pre.add(a), w, out) == lex_rec(pre.add(b), w, out),
    decreases pre.len(),
{
    if pre.len() == 0 {
        assert(pre.add(a) =~= a);
        assert(pre.add(b) =~= b);
        assert(lex_rec(a, w, out) == lex_rec(b, w, out));
    } else {
        let c = pre[0];
        assert(pre.add(a)[0] == c);
        assert(pre.add(b)[0] == c);
        assert(pre.add(a).drop_first() =~= pre.drop_first().add(a));
        assert(pre.add(b).drop_first() =~= pre.drop_first().add(b));
        match spec_flush(w, out) {
            Result::Err(e) => {
                if is_symbol_char(c) || c == ' ' {
                } else {
                    lemma_prefix_congruence(pre.drop_first(), a, b, w.push(c), out);
                }
            },
            Result::Ok(o2) => {
                if is_symbol_char(c) {
                    lemma_prefix_congruence(
                        pre.drop_first(),
                        a,
                        b,
                        Seq::empty(),
                        o2.push(symbol_token_view(c)),
                    );
                } else if c == ' ' {
                    lemma_prefix_congruence(pre.drop_first(), a, b, Seq::empty(), o2);
                } else {
                    lemma_prefix_congruence(pre.drop_first(), a, b, w.push(c), out);
                }
            },
        }
    }
}

/// Idempotence of whitespace: inserting one more space at a word boundary —
/// at the start or end of the input, or beside a symbol or an existing
/// space — never changes the result of tokenizing.
pub proof fn lemma_space_insertion(pre: Seq<char>, post: Seq<char>)
    requires
        pre.len() == 0 || is_boundary_char(pre.last()) || post.len() == 0 || is_boundary_char(
            post[0],
        ),
    ensures
        spec_lex(pre.add(seq![' ']).add(post)) == spec_lex(pre.add(post)),
{
    let e = Seq::<char>::empty();
    let eo = Seq::<TokenView>::empty();
    if post.len() == 0 || is_boundary_char(post[0]) {
        let sp = seq![' '].add(post);
        assert forall|w2: Seq<char>, out2: Seq<TokenView>| #[trigger] lex_rec(sp, w2, out2)
            == lex_rec(post, w2, out2) by {
            lemma_space_before_boundary(post, w2, out2);
        }
        lemma_prefix_congruence(pre, sp, post, e, eo);
        assert(pre.add(sp) =~= pre.add(seq![' ']).add(post));
    } else if pre.len() == 0 {
        assert(pre.add(seq![' ']).add(post) =~= seq![' '].add(post));
        assert(pre.add(post) =~= post);
        lemma_space_empty_word(post, eo);
    } else {
        let b = pre.last();
        let pre2 = pre.drop_last();
        let sl = seq![b, ' '].add(post);
        let sr = seq![b].add(post);
        assert forall|w2: Seq<char>, out2: Seq<TokenView>| #[trigger] lex_rec(sl, w2, out2)
            == lex_rec(sr, w2, out2) by {
            lemma_boundary_then_space(b, post, w2, out2);
        }
        lemma_prefix_congruence(pre2, sl, sr, e, eo);
        assert(pre2.add(sl) =~= pre.add(seq![' ']).add(post));
        assert(pre2.add(sr) =~= pre.add(post));
    }
}

/// Symbol adjacency: a symbol written right after a word — no space between
/// them — tokenizes exactly as the same text with a space before the symbol;
/// the symbol itself flushes the pending word before its own fixed token.
pub proof fn lemma_symbol_adjacency(pre: Seq<char>, post: Seq<char>)
    requires
        post.len() > 0,
        is_symbol_char(post[0]),
    ensures
        spec_lex(pre.add(post)) == spec_lex(pre.add(seq![' ']).add(post)),
{
    lemma_space_insertion(pre, post);
}

} // verus!
