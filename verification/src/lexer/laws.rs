//! What holds of every stream of tokens that the tokenizer gives.

use super::scan::{
    assign_rule, claim_prefix, classify_spec, colon_rule, pass_spec, pattern_of, regex_find_all,
    star_rule, whole_type, whole_word, Pass,
};
use super::skip::{
    extend_skip, intersects_skip, lemma_extend_skip, overlaps, skip_wf, token_ranges,
};
use super::token::{Operator, Range, Symbol, Token, TokenType, Value};
use super::words::lexical_form;
use super::{
    lex_spec, passes, place_by_end, run_passes, sort_by_end, sort_prefix, tokenize_spec,
    LexingError,
};
use vstd::prelude::*;

verus! {

/// The tokens stand in the order of the source: each ends before the next
/// begins.
pub open spec fn in_source_order(tokens: Seq<Token>) -> bool {
    forall|i: int, j: int|
        0 <= i < j < tokens.len() ==> (#[trigger] tokens[i]).range[1] <= (
        #[trigger] tokens[j]).range[0]
}

/// No two tokens share a byte.
pub open spec fn disjoint(tokens: Seq<Token>) -> bool {
    forall|i: int, j: int|
        0 <= i < tokens.len() && 0 <= j < tokens.len() && i != j ==> !overlaps(
            (#[trigger] tokens[i]).range,
            (#[trigger] tokens[j]).range,
        )
}

/// Whether a token of kind `kind` may stand at `r` in `text`, given what
/// stands around it: a word, a numeral or a type stands alone; an
/// assignment has a byte that is no `=` on either side; a colon has no
/// other colon next to it; a dereference has a letter or a `*` behind it,
/// and a multiplication has not.
pub open spec fn in_context(kind: TokenType, text: Seq<u8>, r: Range) -> bool {
    match kind {
        TokenType::Keyword(_) => whole_word(text, r),
        TokenType::Identifier => whole_word(text, r),
        TokenType::Type => whole_type(text, r),
        TokenType::Value(Value::String) => true,
        TokenType::Value(Value::Byte) => true,
        TokenType::Value(_) => whole_word(text, r),
        TokenType::Symbol(Symbol::Assign) => assign_rule(text, r[0] as int) == Ok::<
            Option<TokenType>,
            LexingError,
        >(Some(kind)),
        TokenType::Symbol(Symbol::Colon) => colon_rule(text, r[0] as int) == Some(kind),
        TokenType::Symbol(Symbol::Dereference) => star_rule(text, r[0] as int) == kind,
        TokenType::Operator(Operator::Mult) => star_rule(text, r[0] as int) == kind,
        _ => true,
    }
}

/// Whether `t` is not empty, lies in `text`, covers a text of the form of
/// its kind, and may stand where it stands.
pub open spec fn token_faithful(t: Token, text: Seq<u8>) -> bool {
    &&& t.range[0] < t.range[1] <= text.len()
    &&& lexical_form(t.token, text.subrange(t.range[0] as int, t.range[1] as int))
    &&& in_context(t.token, text, t.range)
}

/// Every token lies in `text`, covers a text of the form of its kind, and
/// may stand where it stands.
pub open spec fn faithful(tokens: Seq<Token>, text: Seq<u8>) -> bool {
    forall|i: int| 0 <= i < tokens.len() ==> token_faithful(#[trigger] tokens[i], text)
}

/// The tokens are ordered by where they end.
pub open spec fn ordered_by_end(tokens: Seq<Token>) -> bool {
    forall|i: int, j: int|
        0 <= i < j < tokens.len() ==> (#[trigger] tokens[i]).range[1] <= (
        #[trigger] tokens[j]).range[1]
}

/// A pass makes a token only of a match whose text has the form of the
/// token's kind, and only where such a token may stand.
#[verifier::rlimit(50)]
pub proof fn lemma_classified_is_faithful(pass: Pass, text: Seq<u8>, r: Range)
    requires
        classify_spec(pass, text, r) is Ok,
        classify_spec(pass, text, r)->Ok_0 is Some,
    ensures
        token_faithful(Token { token: classify_spec(pass, text, r)->Ok_0->0, range: r }, text),
{
}

/// Every token that a pass makes of its matches is faithful.
pub proof fn lemma_claimed_tokens(
    pass: Pass,
    text: Seq<u8>,
    skip: Seq<Range>,
    matches: Seq<Range>,
    n: nat,
)
    requires
        n <= matches.len(),
        claim_prefix(pass, text, skip, matches, n) is Ok,
    ensures
        faithful(claim_prefix(pass, text, skip, matches, n)->Ok_0, text),
    decreases n,
{
    if n > 0 {
        lemma_claimed_tokens(pass, text, skip, matches, (n - 1) as nat);
        let r = matches[n - 1];
        if classify_spec(pass, text, r) is Ok && classify_spec(pass, text, r)->Ok_0 is Some {
            lemma_classified_is_faithful(pass, text, r);
        }
    }
}

/// Whether a token of `tokens` covers exactly `r`.
pub open spec fn is_token_range(tokens: Seq<Token>, r: Range) -> bool {
    exists|k: int| 0 <= k < tokens.len() && (#[trigger] tokens[k]).range == r
}

/// What holds after each pass: the claimed ranges keep their invariant
/// and are the ranges of the tokens, every token is faithful, and no two
/// tokens share a byte.
pub open spec fn pass_invariant(tokens: Seq<Token>, skip: Seq<Range>, text: Seq<u8>) -> bool {
    &&& skip_wf(skip)
    &&& faithful(tokens, text)
    &&& disjoint(tokens)
    &&& forall|i: int| 0 <= i < tokens.len() ==> skip.contains((#[trigger] tokens[i]).range)
    &&& forall|i: int| 0 <= i < skip.len() ==> is_token_range(tokens, #[trigger] skip[i])
}

#[verifier::rlimit(50)]
proof fn lemma_lex_keeps_invariant(pass: Pass, text: Seq<u8>, tokens: Seq<Token>, skip: Seq<Range>)
    requires
        pass_invariant(tokens, skip, text),
        lex_spec(pass, text, tokens, skip) is Ok,
    ensures
        pass_invariant(
            lex_spec(pass, text, tokens, skip)->Ok_0.0,
            lex_spec(pass, text, tokens, skip)->Ok_0.1,
            text,
        ),
{
    let matches = regex_find_all(pattern_of(pass), text)->0;
    let new_tokens = pass_spec(pass, text, skip)->Ok_0;
    let rs = token_ranges(new_tokens);
    let claimed = extend_skip(skip, rs, new_tokens.len())->0;
    let all = tokens + new_tokens;
    lemma_claimed_tokens(pass, text, skip, matches, matches.len());
    lemma_extend_skip(skip, rs, new_tokens.len());
    assert forall|i: int| 0 <= i < all.len() implies claimed.contains((#[trigger] all[i]).range) by {
        if i < tokens.len() {
            assert(skip.contains(tokens[i].range));
        } else {
            assert(rs[i - tokens.len()] == all[i].range);
        }
    }
    assert forall|i: int, j: int|
        0 <= i < all.len() && 0 <= j < all.len() && i != j implies !overlaps(
        (#[trigger] all[i]).range,
        (#[trigger] all[j]).range,
    ) by {
        let n = tokens.len() as int;
        if i < n && j < n {
            assert(all[i] == tokens[i] && all[j] == tokens[j]);
        } else if i < n {
            let k = choose|k: int| 0 <= k < skip.len() && skip[k] == tokens[i].range;
            assert(!overlaps(rs[j - n], skip[k]));
        } else if j < n {
            let k = choose|k: int| 0 <= k < skip.len() && skip[k] == tokens[j].range;
            assert(!overlaps(rs[i - n], skip[k]));
        } else {
            if i < j {
                assert(!overlaps(rs[i - n], rs[j - n]));
            } else {
                assert(!overlaps(rs[j - n], rs[i - n]));
            }
        }
    }
    assert forall|i: int| 0 <= i < all.len() implies token_faithful(#[trigger] all[i], text) by {
        if i < tokens.len() {
            assert(all[i] == tokens[i]);
        } else {
            assert(all[i] == new_tokens[i - tokens.len()]);
        }
    }
    assert forall|i: int| 0 <= i < claimed.len() implies is_token_range(
        all,
        #[trigger] claimed[i],
    ) by {
        let x = claimed[i];
        assert(claimed.contains(x));
        if skip.contains(x) {
            let j = choose|j: int| 0 <= j < skip.len() && skip[j] == x;
            assert(is_token_range(tokens, skip[j]));
            let k = choose|k: int| 0 <= k < tokens.len() && (#[trigger] tokens[k]).range == x;
            assert(all[k].range == x);
        } else {
            let k = choose|k: int| 0 <= k < new_tokens.len() && #[trigger] rs[k] == x;
            assert(all[tokens.len() + k].range == x);
        }
    }
}

proof fn lemma_passes_keep_invariant(text: Seq<u8>, n: nat)
    requires
        run_passes(text, n) is Ok,
    ensures
        pass_invariant(run_passes(text, n)->Ok_0.0, run_passes(text, n)->Ok_0.1, text),
    decreases n,
{
    if 0 < n <= passes().len() {
        lemma_passes_keep_invariant(text, (n - 1) as nat);
        let before = run_passes(text, (n - 1) as nat)->Ok_0;
        lemma_lex_keeps_invariant(passes()[n - 1], text, before.0, before.1);
    }
}

/// The bookkeeping of the passes. After any number of passes the claimed
/// ranges are those of the tokens made so far, each once; none is empty,
/// and they stand in the order of the source, each ending before the next
/// begins.
pub proof fn law_claimed_ranges_are_token_ranges(text: Seq<u8>, n: nat)
    requires
        run_passes(text, n) is Ok,
    ensures
        skip_wf(run_passes(text, n)->Ok_0.1),
        forall|r: Range|
            run_passes(text, n)->Ok_0.1.contains(r) <==> is_token_range(
                run_passes(text, n)->Ok_0.0,
                r,
            ),
{
    let tokens = run_passes(text, n)->Ok_0.0;
    let skip = run_passes(text, n)->Ok_0.1;
    lemma_passes_keep_invariant(text, n);
    assert forall|r: Range| skip.contains(r) <==> is_token_range(tokens, r) by {
        if skip.contains(r) {
            let i = choose|i: int| 0 <= i < skip.len() && skip[i] == r;
            assert(is_token_range(tokens, skip[i]));
        }
        if is_token_range(tokens, r) {
            let k = choose|k: int| 0 <= k < tokens.len() && (#[trigger] tokens[k]).range == r;
            assert(skip.contains(tokens[k].range));
        }
    }
}

proof fn lemma_place_by_end(s: Seq<Token>, t: Token, k: int)
    requires
        0 <= k <= s.len(),
    ensures
        k <= place_by_end(s, t, k) <= s.len(),
        forall|j: int| k <= j < place_by_end(s, t, k) ==> (#[trigger] s[j]).range[1] <= t.range[1],
        place_by_end(s, t, k) < s.len() ==> s[place_by_end(s, t, k)].range[1] > t.range[1],
    decreases s.len() - k,
{
    if k < s.len() && s[k].range[1] <= t.range[1] {
        lemma_place_by_end(s, t, k + 1);
    }
}

proof fn lemma_insert_keeps_order(s: Seq<Token>, t: Token)
    requires
        ordered_by_end(s),
    ensures
        ordered_by_end(s.insert(place_by_end(s, t, 0), t)),
{
    let p = place_by_end(s, t, 0);
    let after = s.insert(p, t);
    lemma_place_by_end(s, t, 0);
    assert forall|i: int, j: int| 0 <= i < j < after.len() implies (#[trigger] after[i]).range[1]
        <= (#[trigger] after[j]).range[1] by {
        if j < p {
            assert(after[i] == s[i] && after[j] == s[j]);
        } else if j == p {
            assert(after[i] == s[i]);
        } else if i < p {
            assert(after[i] == s[i] && after[j] == s[j - 1]);
            if j - 1 > p {
                assert(s[p].range[1] <= s[j - 1].range[1]);
            }
        } else if i == p {
            assert(after[j] == s[j - 1]);
            if j - 1 > p {
                assert(s[p].range[1] <= s[j - 1].range[1]);
            }
        } else {
            assert(after[i] == s[i - 1] && after[j] == s[j - 1]);
        }
    }
}

proof fn lemma_insert_contains(s: Seq<Token>, p: int, t: Token, x: Token)
    requires
        0 <= p <= s.len(),
    ensures
        s.insert(p, t).contains(x) <==> s.contains(x) || x == t,
{
    let after = s.insert(p, t);
    if after.contains(x) {
        let i = choose|i: int| 0 <= i < after.len() && after[i] == x;
        if i < p {
            assert(s[i] == x);
        } else if i > p {
            assert(s[i - 1] == x);
        }
    }
    if s.contains(x) {
        let i = choose|i: int| 0 <= i < s.len() && s[i] == x;
        if i < p {
            assert(after[i] == x);
        } else {
            assert(after[i + 1] == x);
        }
    }
    if x == t {
        assert(after[p] == x);
    }
}

proof fn lemma_insert_keeps_disjoint(s: Seq<Token>, p: int, t: Token)
    requires
        0 <= p <= s.len(),
        disjoint(s),
        forall|i: int| 0 <= i < s.len() ==> !overlaps((#[trigger] s[i]).range, t.range),
    ensures
        disjoint(s.insert(p, t)),
{
    let after = s.insert(p, t);
    assert forall|i: int, j: int|
        0 <= i < after.len() && 0 <= j < after.len() && i != j implies !overlaps(
        (#[trigger] after[i]).range,
        (#[trigger] after[j]).range,
    ) by {
        let a = if i < p {
            i
        } else {
            i - 1
        };
        let b = if j < p {
            j
        } else {
            j - 1
        };
        if i != p && j != p {
            assert(after[i] == s[a] && after[j] == s[b]);
            assert(!overlaps(s[a].range, s[b].range));
        } else if i == p {
            assert(after[j] == s[b]);
            assert(!overlaps(s[b].range, t.range));
        } else {
            assert(after[i] == s[a]);
            assert(!overlaps(s[a].range, t.range));
        }
    }
}

/// Ordering the tokens keeps each of them, adds none, and leaves them
/// ordered by where they end.
#[verifier::rlimit(50)]
pub proof fn lemma_sort_prefix(tokens: Seq<Token>, n: nat)
    requires
        n <= tokens.len(),
    ensures
        sort_prefix(tokens, n).len() == n,
        ordered_by_end(sort_prefix(tokens, n)),
        forall|x: Token| #[trigger]
            sort_prefix(tokens, n).contains(x) <==> exists|k: int|
                0 <= k < n && #[trigger] tokens[k] == x,
        disjoint(tokens) ==> disjoint(sort_prefix(tokens, n)),
    decreases n,
{
    if n > 0 {
        let before = sort_prefix(tokens, (n - 1) as nat);
        let t = tokens[n - 1];
        let p = place_by_end(before, t, 0);
        let after = before.insert(p, t);
        lemma_sort_prefix(tokens, (n - 1) as nat);
        lemma_place_by_end(before, t, 0);
        lemma_insert_keeps_order(before, t);
        assert forall|x: Token| #[trigger]
            after.contains(x) <==> exists|k: int| 0 <= k < n && #[trigger] tokens[k] == x by {
            lemma_insert_contains(before, p, t, x);
            if before.contains(x) {
                let k = choose|k: int| 0 <= k < n - 1 && #[trigger] tokens[k] == x;
                assert(0 <= k < n && tokens[k] == x);
            }
            if exists|k: int| 0 <= k < n && #[trigger] tokens[k] == x {
                let k = choose|k: int| 0 <= k < n && #[trigger] tokens[k] == x;
                if k < n - 1 {
                    assert(before.contains(x));
                }
            }
        }
        if disjoint(tokens) {
            assert forall|i: int| 0 <= i < before.len() implies !overlaps(
                (#[trigger] before[i]).range,
                t.range,
            ) by {
                assert(before.contains(before[i]));
                let k = choose|k: int| 0 <= k < n - 1 && #[trigger] tokens[k] == before[i];
                assert(!overlaps(tokens[k].range, tokens[n - 1].range));
            }
            lemma_insert_keeps_disjoint(before, p, t);
        }
    }
}

proof fn lemma_stream(text: Seq<u8>)
    requires
        tokenize_spec(text) is Ok,
    ensures
        in_source_order(tokenize_spec(text)->Ok_0),
        faithful(tokenize_spec(text)->Ok_0, text),
{
    let collected = run_passes(text, passes().len())->Ok_0.0;
    let stream = sort_by_end(collected);
    lemma_passes_keep_invariant(text, passes().len());
    lemma_sort_prefix(collected, collected.len());
    assert forall|i: int| 0 <= i < stream.len() implies token_faithful(
        #[trigger] stream[i],
        text,
    ) by {
        assert(stream.contains(stream[i]));
        let k = choose|k: int| 0 <= k < collected.len() && #[trigger] collected[k] == stream[i];
        assert(token_faithful(collected[k], text));
    }
    assert forall|i: int, j: int| 0 <= i < j < stream.len() implies (#[trigger] stream[i]).range[1]
        <= (#[trigger] stream[j]).range[0] by {
        assert(token_faithful(stream[i], text));
        assert(token_faithful(stream[j], text));
        assert(!overlaps(stream[i].range, stream[j].range));
    }
}

/// Non-overlap. In the stream of a text each token ends before the next
/// begins: the tokens stand in the order of the source, and no two of them
/// share a byte.
pub proof fn law_tokens_do_not_overlap(text: Seq<u8>)
    requires
        tokenize_spec(text) is Ok,
    ensures
        in_source_order(tokenize_spec(text)->Ok_0),
        disjoint(tokenize_spec(text)->Ok_0),
{
    lemma_stream(text);
}

/// Grammar fidelity. In the stream of a text each token covers bytes of
/// the text, one at least; those bytes have the lexical form of the
/// token's kind; and the token may stand where it stands: a keyword is a
/// whole word, an assignment is no part of a comparison, and so on.
pub proof fn law_tokens_are_faithful(text: Seq<u8>)
    requires
        tokenize_spec(text) is Ok,
    ensures
        faithful(tokenize_spec(text)->Ok_0, text),
{
    lemma_stream(text);
}

/// White space: a blank, a tab, a line feed or a carriage return.
pub open spec fn is_space(b: u8) -> bool {
    b == ' ' as u8 || b == '\t' as u8 || b == '\n' as u8 || b == '\r' as u8
}

/// Whether the byte at `p` lies in the token at place `k`.
pub open spec fn token_covers(tokens: Seq<Token>, k: int, p: int) -> bool {
    0 <= k < tokens.len() && tokens[k].range[0] <= p < tokens[k].range[1]
}

/// Whether the byte at `p` lies in one of the tokens.
pub open spec fn claimed(tokens: Seq<Token>, p: int) -> bool {
    exists|k: int| token_covers(tokens, k, p)
}

/// A text is well formed, given its tokens, where nothing but white space
/// is left outside them.
///
/// What a pass finds in a text is what its regular expression matches
/// there, and of that nothing is proved. So this is said of a text
/// together with its stream; `first_unclaimed` decides it.
pub open spec fn well_formed(text: Seq<u8>, tokens: Seq<Token>) -> bool {
    forall|p: int| 0 <= p < text.len() && !is_space(#[trigger] text[p]) ==> claimed(tokens, p)
}

/// Coverage. In a well-formed text every byte that is no white space
/// belongs to exactly one token of the stream; a byte of a comment belongs
/// to the token of that comment. `law_well_matched_text_is_covered` says
/// what makes a text well formed.
pub proof fn law_every_byte_in_one_token(text: Seq<u8>, p: int)
    requires
        tokenize_spec(text) is Ok,
        well_formed(text, tokenize_spec(text)->Ok_0),
        0 <= p < text.len(),
        !is_space(text[p]),
    ensures
        exists|k: int|
            {
                &&& #[trigger] token_covers(tokenize_spec(text)->Ok_0, k, p)
                &&& forall|j: int| #[trigger]
                    token_covers(tokenize_spec(text)->Ok_0, j, p) ==> j == k
            },
{
    let tokens = tokenize_spec(text)->Ok_0;
    lemma_stream(text);
    assert(claimed(tokens, p));
    let k = choose|k: int| token_covers(tokens, k, p);
    assert forall|j: int| #[trigger] token_covers(tokens, j, p) implies j == k by {
        if j < k {
            assert(tokens[j].range[1] <= tokens[k].range[0]);
        } else if k < j {
            assert(tokens[k].range[1] <= tokens[j].range[0]);
        }
    }
}

/// Whether `pass` keeps the match `m`: it shares no byte with what is
/// claimed, and the pass makes a token of it.
pub open spec fn kept(pass: Pass, text: Seq<u8>, skip: Seq<Range>, m: Range) -> bool {
    &&& !intersects_skip(m, skip)
    &&& classify_spec(pass, text, m) is Ok
    &&& classify_spec(pass, text, m)->Ok_0 is Some
}

/// Whether `t` is the token that `pass` makes of the match at place `k`.
pub open spec fn made_of(
    pass: Pass,
    text: Seq<u8>,
    skip: Seq<Range>,
    matches: Seq<Range>,
    k: int,
    t: Token,
) -> bool {
    &&& 0 <= k < matches.len()
    &&& kept(pass, text, skip, matches[k])
    &&& t == Token { token: classify_spec(pass, text, matches[k])->Ok_0->0, range: matches[k] }
}

/// The tokens that a pass makes of its first `n` matches are those of the
/// matches that it keeps: none is lost, and none is added.
#[verifier::rlimit(50)]
pub proof fn lemma_claimed_are_kept(
    pass: Pass,
    text: Seq<u8>,
    skip: Seq<Range>,
    matches: Seq<Range>,
    n: nat,
    t: Token,
)
    requires
        n <= matches.len(),
        claim_prefix(pass, text, skip, matches, n) is Ok,
    ensures
        claim_prefix(pass, text, skip, matches, n)->Ok_0.contains(t) <==> exists|k: int|
            k < n && #[trigger] made_of(pass, text, skip, matches, k, t),
    decreases n,
{
    if n == 0 {
        assert(!Seq::<Token>::empty().contains(t));
    } else {
        let done = claim_prefix(pass, text, skip, matches, (n - 1) as nat)->Ok_0;
        let now = claim_prefix(pass, text, skip, matches, n)->Ok_0;
        let m = matches[n - 1];
        lemma_claimed_are_kept(pass, text, skip, matches, (n - 1) as nat, t);
        if kept(pass, text, skip, m) {
            let made = Token { token: classify_spec(pass, text, m)->Ok_0->0, range: m };
            assert(now == done.push(made));
            if now.contains(t) {
                let i = choose|i: int| 0 <= i < now.len() && now[i] == t;
                if i < done.len() {
                    assert(done[i] == t);
                    assert(done.contains(t));
                    let k = choose|k: int|
                        k < n - 1 && #[trigger] made_of(pass, text, skip, matches, k, t);
                    assert(k < n && made_of(pass, text, skip, matches, k, t));
                } else {
                    assert(made_of(pass, text, skip, matches, n - 1, t));
                }
            }
            if exists|k: int| k < n && #[trigger] made_of(pass, text, skip, matches, k, t) {
                let k = choose|k: int| k < n && #[trigger] made_of(pass, text, skip, matches, k, t);
                if k < n - 1 {
                    assert(done.contains(t));
                    let i = choose|i: int| 0 <= i < done.len() && done[i] == t;
                    assert(now[i] == t);
                } else {
                    assert(now[done.len() as int] == t);
                }
            }
        } else {
            assert(now == done);
            if exists|k: int| k < n && #[trigger] made_of(pass, text, skip, matches, k, t) {
                let k = choose|k: int| k < n && #[trigger] made_of(pass, text, skip, matches, k, t);
                assert(k < n - 1 && made_of(pass, text, skip, matches, k, t));
            }
            if done.contains(t) {
                let k = choose|k: int|
                    k < n - 1 && #[trigger] made_of(pass, text, skip, matches, k, t);
                assert(k < n && made_of(pass, text, skip, matches, k, t));
            }
        }
    }
}

/// Whether the pass at place `i` makes the token `t` of one of the matches
/// of its pattern in `text`, given what the passes before it have claimed.
pub open spec fn found_by(text: Seq<u8>, i: int, t: Token) -> bool {
    &&& 0 <= i < passes().len()
    &&& run_passes(text, i as nat) is Ok
    &&& made_by(passes()[i], text, run_passes(text, i as nat)->Ok_0.1, t)
}

proof fn lemma_concat_contains(a: Seq<Token>, b: Seq<Token>, t: Token)
    ensures
        (a + b).contains(t) <==> a.contains(t) || b.contains(t),
{
    let all = a + b;
    if all.contains(t) {
        let j = choose|j: int| 0 <= j < all.len() && all[j] == t;
        if j < a.len() {
            assert(a[j] == t);
        } else {
            assert(b[j - a.len()] == t);
        }
    }
    if a.contains(t) {
        let j = choose|j: int| 0 <= j < a.len() && a[j] == t;
        assert(all[j] == t);
    }
    if b.contains(t) {
        let j = choose|j: int| 0 <= j < b.len() && b[j] == t;
        assert(all[a.len() + j] == t);
    }
}

/// Whether `pass` makes the token `t` of one of the matches of its pattern
/// in `text`, given what is claimed.
pub open spec fn made_by(pass: Pass, text: Seq<u8>, skip: Seq<Range>, t: Token) -> bool {
    &&& regex_find_all(pattern_of(pass), text) is Some
    &&& exists|k: int| #[trigger]
        made_of(pass, text, skip, regex_find_all(pattern_of(pass), text)->0, k, t)
}

#[verifier::rlimit(50)]
proof fn lemma_lex_adds_the_kept(
    pass: Pass,
    text: Seq<u8>,
    tokens: Seq<Token>,
    skip: Seq<Range>,
    t: Token,
)
    requires
        lex_spec(pass, text, tokens, skip) is Ok,
    ensures
        lex_spec(pass, text, tokens, skip)->Ok_0.0.contains(t) <==> tokens.contains(t) || made_by(
            pass,
            text,
            skip,
            t,
        ),
{
    let matches = regex_find_all(pattern_of(pass), text)->0;
    let new_tokens = pass_spec(pass, text, skip)->Ok_0;
    assert(lex_spec(pass, text, tokens, skip)->Ok_0.0 == tokens + new_tokens);
    lemma_concat_contains(tokens, new_tokens, t);
    lemma_claimed_are_kept(pass, text, skip, matches, matches.len(), t);
    if made_by(pass, text, skip, t) {
        let k = choose|k: int| #[trigger] made_of(pass, text, skip, matches, k, t);
        assert(k < matches.len() && made_of(pass, text, skip, matches, k, t));
    }
}

#[verifier::rlimit(50)]
proof fn lemma_collected_are_found(text: Seq<u8>, n: nat, t: Token)
    requires
        n <= passes().len(),
        run_passes(text, n) is Ok,
    ensures
        run_passes(text, n)->Ok_0.0.contains(t) <==> exists|i: int|
            i < n && #[trigger] found_by(text, i, t),
    decreases n,
{
    if n == 0 {
        assert(!Seq::<Token>::empty().contains(t));
    } else {
        let before = run_passes(text, (n - 1) as nat)->Ok_0;
        let pass = passes()[n - 1];
        lemma_collected_are_found(text, (n - 1) as nat, t);
        lemma_lex_adds_the_kept(pass, text, before.0, before.1, t);
        assert(found_by(text, n - 1, t) == made_by(pass, text, before.1, t));
        if before.0.contains(t) {
            let i = choose|i: int| i < n - 1 && #[trigger] found_by(text, i, t);
            assert(i < n && found_by(text, i, t));
        }
        if exists|i: int| i < n && #[trigger] found_by(text, i, t) {
            let i = choose|i: int| i < n && #[trigger] found_by(text, i, t);
            if i < n - 1 {
                assert(i < n - 1 && found_by(text, i, t));
            }
        }
    }
}

/// Nothing found is lost. The tokens of the stream are those that the
/// passes make of the matches they keep: a match that shares no byte with
/// what earlier passes claimed, and of which its pass makes a token, is in
/// the stream, and the stream holds no other token. So a byte lies
/// outside every token only where no kept match covers it.
pub proof fn law_stream_is_the_kept_matches(text: Seq<u8>, t: Token)
    requires
        tokenize_spec(text) is Ok,
    ensures
        tokenize_spec(text)->Ok_0.contains(t) <==> exists|i: int| #[trigger] found_by(text, i, t),
{
    let collected = run_passes(text, passes().len())->Ok_0.0;
    lemma_collected_are_found(text, passes().len(), t);
    lemma_sort_prefix(collected, collected.len());
    if collected.contains(t) {
        let k = choose|k: int| 0 <= k < collected.len() && collected[k] == t;
        assert(0 <= k < collected.len() && collected[k] == t);
    }
    if exists|i: int| #[trigger] found_by(text, i, t) {
        let i = choose|i: int| #[trigger] found_by(text, i, t);
        assert(i < passes().len() && found_by(text, i, t));
    }
}

/// What coverage rests on. A byte lies in a token of the stream exactly
/// where a match covers it that its pass keeps. So a text is well formed
/// where every byte that is no white space lies in such a match.
pub proof fn law_covered_bytes_lie_in_kept_matches(text: Seq<u8>, p: int)
    requires
        tokenize_spec(text) is Ok,
    ensures
        claimed(tokenize_spec(text)->Ok_0, p) <==> exists|i: int, t: Token|
            #[trigger] found_by(text, i, t) && t.range[0] <= p < t.range[1],
{
    let stream = tokenize_spec(text)->Ok_0;
    if claimed(stream, p) {
        let k = choose|k: int| token_covers(stream, k, p);
        let t = stream[k];
        assert(stream.contains(t));
        law_stream_is_the_kept_matches(text, t);
        let i = choose|i: int| #[trigger] found_by(text, i, t);
        assert(found_by(text, i, t) && t.range[0] <= p < t.range[1]);
    }
    if exists|i: int, t: Token| #[trigger] found_by(text, i, t) && t.range[0] <= p < t.range[1] {
        let (i, t) = choose|i: int, t: Token|
            #[trigger] found_by(text, i, t) && t.range[0] <= p < t.range[1];
        law_stream_is_the_kept_matches(text, t);
        assert(stream.contains(t));
        let k = choose|k: int| 0 <= k < stream.len() && stream[k] == t;
        assert(token_covers(stream, k, p));
    }
}

/// Whether every byte of `text` that is no white space lies in a match
/// that its pass keeps.
pub open spec fn well_matched(text: Seq<u8>) -> bool {
    forall|p: int|
        0 <= p < text.len() && !is_space(#[trigger] text[p]) ==> exists|i: int, t: Token|
            #[trigger] found_by(text, i, t) && t.range[0] <= p < t.range[1]
}

/// Coverage, over the matches. A text that the passes take without error
/// is well formed exactly where every byte of it that is no white space
/// lies in a match that its pass keeps; and then each such byte belongs to
/// exactly one token of the stream.
pub proof fn law_well_matched_text_is_covered(text: Seq<u8>)
    requires
        tokenize_spec(text) is Ok,
    ensures
        well_matched(text) <==> well_formed(text, tokenize_spec(text)->Ok_0),
{
    let stream = tokenize_spec(text)->Ok_0;
    if well_matched(text) {
        assert forall|p: int| 0 <= p < text.len() && !is_space(#[trigger] text[p]) implies claimed(
            stream,
            p,
        ) by {
            law_covered_bytes_lie_in_kept_matches(text, p);
        }
    }
    if well_formed(text, stream) {
        assert forall|p: int|
            0 <= p < text.len() && !is_space(#[trigger] text[p]) implies exists|i: int, t: Token|
            #[trigger] found_by(text, i, t) && t.range[0] <= p < t.range[1] by {
            assert(claimed(stream, p));
            law_covered_bytes_lie_in_kept_matches(text, p);
        }
    }
}

} // verus!
