//! The order of the tokens of a combination and its rendering as text.

use crate::keys::{canonical_token, normalize_token};
use crate::text::{
    chars_of, lemma_lex_irreflexive, lemma_lex_total, lemma_lex_transitive, lex_before, lex_less,
    push_char, same_text, texts,
};
use vstd::prelude::*;

verus! {

/// The character that separates the tokens of a rendered combination.
pub open spec fn separator() -> char {
    '+'
}

/// The place of a token among the modifiers: `ctrl`, then `shift`, then
/// `alt`; every other token comes after them.
pub open spec fn rank(token: Seq<char>) -> int {
    if token == "ctrl"@ {
        0
    } else if token == "shift"@ {
        1
    } else if token == "alt"@ {
        2
    } else {
        3
    }
}

/// The strict order in which tokens are rendered: by rank, and among the
/// tokens that are no modifiers in lexicographic order.
pub open spec fn combo_less(a: Seq<char>, b: Seq<char>) -> bool {
    rank(a) < rank(b) || (rank(a) == rank(b) && lex_less(a, b))
}

/// No token comes before itself.
pub proof fn lemma_combo_irreflexive(a: Seq<char>)
    ensures
        !combo_less(a, a),
{
    lemma_lex_irreflexive(a);
}

/// The order of tokens is transitive.
pub proof fn lemma_combo_transitive(a: Seq<char>, b: Seq<char>, c: Seq<char>)
    requires
        combo_less(a, b),
        combo_less(b, c),
    ensures
        combo_less(a, c),
{
    if rank(a) == rank(b) && rank(b) == rank(c) {
        lemma_lex_transitive(a, b, c);
    }
}

/// Of two different tokens, one comes before the other.
pub proof fn lemma_combo_total(a: Seq<char>, b: Seq<char>)
    ensures
        a == b || combo_less(a, b) || combo_less(b, a),
{
    lemma_lex_total(a, b);
}

/// Each token comes before all that follow it.
pub open spec fn strictly_sorted(tokens: Seq<Seq<char>>) -> bool {
    forall|i: int, j: int| 0 <= i < j < tokens.len() ==> combo_less(tokens[i], tokens[j])
}

/// The tokens of a set in rendering order, each once.
pub open spec fn sorted_tokens(tokens: Set<Seq<char>>) -> Seq<Seq<char>> {
    choose|sorted: Seq<Seq<char>>| strictly_sorted(sorted) && sorted.to_set() == tokens
}

/// The tokens joined by the separator.
pub open spec fn join_plus(tokens: Seq<Seq<char>>) -> Seq<char>
    decreases tokens.len(),
{
    if tokens.len() == 0 {
        Seq::empty()
    } else if tokens.len() == 1 {
        tokens[0]
    } else {
        join_plus(tokens.drop_last()) + seq![separator()] + tokens.last()
    }
}

/// The pieces of a text between its separators; a text without separator is
/// its own single piece.
pub open spec fn split_plus(text: Seq<char>) -> Seq<Seq<char>>
    decreases text.len(),
{
    if text.len() == 0 {
        seq![Seq::empty()]
    } else {
        let before = split_plus(text.drop_last());
        if text.last() == separator() {
            before.push(Seq::empty())
        } else {
            before.drop_last().push(before.last().push(text.last()))
        }
    }
}

/// The rendering of a set of tokens: the tokens in order, joined by the
/// separator. The empty set renders as the empty text.
pub open spec fn rendered(tokens: Set<Seq<char>>) -> Seq<char> {
    join_plus(sorted_tokens(tokens))
}

/// The canonical tokens of a list of labels, in the order of the labels.
pub open spec fn canonical_tokens(labels: Seq<Seq<char>>) -> Seq<Seq<char>> {
    Seq::new(labels.len(), |i: int| canonical_token(labels[i]))
}

/// The canonical tokens of the pieces of a combination.
pub open spec fn tokens_of(combination: Seq<char>) -> Set<Seq<char>> {
    canonical_tokens(split_plus(combination)).to_set()
}

/// The normal form of a combination written as text: its pieces as canonical
/// tokens, each once, rendered in order.
pub open spec fn normalized(combination: Seq<char>) -> Seq<char> {
    rendered(tokens_of(combination))
}

/// A strictly sorted list holds no token twice.
pub proof fn lemma_sorted_no_duplicates(tokens: Seq<Seq<char>>)
    requires
        strictly_sorted(tokens),
    ensures
        tokens.no_duplicates(),
{
    assert forall|i: int, j: int| 0 <= i < tokens.len() && 0 <= j < tokens.len() && i != j implies tokens[i]
        != tokens[j] by {
        lemma_combo_irreflexive(tokens[i]);
        if i < j {
            assert(combo_less(tokens[i], tokens[j]));
        } else {
            assert(combo_less(tokens[j], tokens[i]));
        }
    }
}

/// Two strictly sorted lists of the same tokens are the same list.
pub proof fn lemma_sorted_unique(a: Seq<Seq<char>>, b: Seq<Seq<char>>)
    requires
        strictly_sorted(a),
        strictly_sorted(b),
        a.to_set() == b.to_set(),
    ensures
        a == b,
    decreases a.len(),
{
    broadcast use vstd::seq_lib::lemma_seq_contains;

    if a.len() == 0 {
        if b.len() > 0 {
            assert(b.to_set().contains(b[0]));
            assert(a.to_set().contains(b[0]));
        }
        assert(a =~= b);
    } else {
        let top = a.last();
        assert(a.to_set().contains(top));
        assert(b.to_set().contains(top));
        assert(b.len() > 0);
        let j = choose|j: int| 0 <= j < b.len() && b[j] == top;
        let other = b.last();
        assert(b.to_set().contains(other));
        assert(a.to_set().contains(other));
        let k = choose|k: int| 0 <= k < a.len() && a[k] == other;
        if j < b.len() - 1 {
            assert(combo_less(top, other));
            if k < a.len() - 1 {
                assert(combo_less(other, top));
                lemma_combo_transitive(top, other, top);
            }
            lemma_combo_irreflexive(top);
        }
        assert(top == other);
        lemma_sorted_no_duplicates(a);
        lemma_sorted_no_duplicates(b);
        let a0 = a.drop_last();
        let b0 = b.drop_last();
        assert forall|x: Seq<char>| a0.to_set().contains(x) <==> b0.to_set().contains(x) by {
            if a0.to_set().contains(x) {
                let i = choose|i: int| 0 <= i < a0.len() && a0[i] == x;
                assert(a[i] == x);
                assert(a.to_set().contains(x));
                assert(b.to_set().contains(x));
                let m = choose|m: int| 0 <= m < b.len() && b[m] == x;
                assert(m < b.len() - 1);
                assert(b0[m] == x);
            }
            if b0.to_set().contains(x) {
                let i = choose|i: int| 0 <= i < b0.len() && b0[i] == x;
                assert(b[i] == x);
                assert(b.to_set().contains(x));
                assert(a.to_set().contains(x));
                let m = choose|m: int| 0 <= m < a.len() && a[m] == x;
                assert(m < a.len() - 1);
                assert(a0[m] == x);
            }
        }
        assert(a0.to_set() =~= b0.to_set());
        lemma_sorted_unique(a0, b0);
        assert(a =~= a0.push(top));
        assert(b =~= b0.push(other));
    }
}

/// A strictly sorted list is the sorted list of its own tokens.
pub proof fn lemma_sorted_tokens_of_list(tokens: Seq<Seq<char>>)
    requires
        strictly_sorted(tokens),
    ensures
        sorted_tokens(tokens.to_set()) == tokens,
{
    let set = tokens.to_set();
    let chosen = sorted_tokens(set);
    assert(strictly_sorted(chosen) && chosen.to_set() == set);
    lemma_sorted_unique(chosen, tokens);
}

/// Putting a token into a sorted list at the place where the tokens before
/// it come before it and the tokens from there on come after it keeps the
/// list sorted, and adds the token to those of the list.
pub proof fn lemma_insert_keeps_sorted(before: Seq<Seq<char>>, i: int, token: Seq<char>)
    requires
        strictly_sorted(before),
        0 <= i <= before.len(),
        forall|k: int| 0 <= k < i ==> combo_less(before[k], token),
        i < before.len() ==> combo_less(token, before[i]),
    ensures
        strictly_sorted(before.insert(i, token)),
        before.insert(i, token).to_set() == before.to_set().insert(token),
{
    broadcast use vstd::seq_lib::lemma_seq_contains;

    let after = before.insert(i, token);
    assert forall|a: int, b: int| 0 <= a < b < after.len() implies combo_less(
        after[a],
        after[b],
    ) by {
        if a < i && b == i {
            assert(combo_less(before[a], token));
        } else if a < i && b > i {
            assert(combo_less(before[a], before[b - 1]));
        } else if a == i {
            if b - 1 > i {
                assert(combo_less(before[i], before[b - 1]));
                lemma_combo_transitive(token, before[i], before[b - 1]);
            }
        } else if b < i {
            assert(combo_less(before[a], before[b]));
        } else {
            assert(combo_less(before[a - 1], before[b - 1]));
        }
    }
    assert forall|x: Seq<char>| after.to_set().contains(x) <==> before.to_set().insert(
        token,
    ).contains(x) by {
        if after.to_set().contains(x) {
            let k = choose|k: int| 0 <= k < after.len() && after[k] == x;
            if k < i {
                assert(before[k] == x);
            } else if k > i {
                assert(before[k - 1] == x);
            }
        }
        if before.to_set().contains(x) {
            let k = choose|k: int| 0 <= k < before.len() && before[k] == x;
            if k < i {
                assert(after[k] == x);
            } else {
                assert(after[k + 1] == x);
            }
        }
        if x == token {
            assert(after[i] == x);
        }
    }
    assert(after.to_set() =~= before.to_set().insert(token));
}

/// The place of a token in a sorted list: behind the tokens that come before
/// it.
pub open spec fn place_of(sorted: Seq<Seq<char>>, token: Seq<char>) -> int
    decreases sorted.len(),
{
    if sorted.len() == 0 {
        0
    } else if combo_less(sorted.last(), token) {
        sorted.len() as int
    } else {
        place_of(sorted.drop_last(), token)
    }
}

proof fn lemma_place_of(sorted: Seq<Seq<char>>, token: Seq<char>)
    requires
        strictly_sorted(sorted),
    ensures
        0 <= place_of(sorted, token) <= sorted.len(),
        forall|k: int| 0 <= k < place_of(sorted, token) ==> combo_less(sorted[k], token),
        forall|k: int|
            place_of(sorted, token) <= k < sorted.len() ==> !combo_less(sorted[k], token),
    decreases sorted.len(),
{
    if sorted.len() > 0 {
        if combo_less(sorted.last(), token) {
            assert forall|k: int| 0 <= k < sorted.len() implies combo_less(sorted[k], token) by {
                if k < sorted.len() - 1 {
                    assert(combo_less(sorted[k], sorted.last()));
                    lemma_combo_transitive(sorted[k], sorted.last(), token);
                }
            }
        } else {
            let front = sorted.drop_last();
            assert(strictly_sorted(front)) by {
                assert forall|a: int, b: int| 0 <= a < b < front.len() implies combo_less(
                    front[a],
                    front[b],
                ) by {
                    assert(combo_less(sorted[a], sorted[b]));
                }
            }
            lemma_place_of(front, token);
            assert forall|k: int| 0 <= k < place_of(sorted, token) implies combo_less(
                sorted[k],
                token,
            ) by {
                assert(front[k] == sorted[k]);
            }
            assert forall|k: int| place_of(sorted, token) <= k < sorted.len() implies !combo_less(
                sorted[k],
                token,
            ) by {
                if k < sorted.len() - 1 {
                    assert(front[k] == sorted[k]);
                }
            }
        }
    }
}

/// Every finite set of tokens has a strictly sorted list of its tokens.
pub proof fn lemma_sorted_exists(tokens: Set<Seq<char>>)
    requires
        tokens.finite(),
    ensures
        strictly_sorted(sorted_tokens(tokens)),
        sorted_tokens(tokens).to_set() == tokens,
    decreases tokens.len(),
{
    broadcast use vstd::seq_lib::lemma_seq_contains;

    if tokens.len() == 0 {
        let none = Seq::<Seq<char>>::empty();
        assert(tokens =~= Set::empty());
        assert(none.to_set() =~= tokens);
        assert(strictly_sorted(none));
    } else {
        let token = tokens.choose();
        let rest = tokens.remove(token);
        lemma_sorted_exists(rest);
        let sorted = sorted_tokens(rest);
        lemma_place_of(sorted, token);
        let i = place_of(sorted, token);
        if i < sorted.len() {
            assert(sorted.to_set().contains(sorted[i]));
            lemma_combo_total(sorted[i], token);
        }
        lemma_insert_keeps_sorted(sorted, i, token);
        assert(rest.insert(token) =~= tokens);
        let whole = sorted.insert(i, token);
        assert(strictly_sorted(whole) && whole.to_set() == tokens);
    }
}

/// The rank of a token.
pub fn rank_of(token: &str) -> (r: u8)
    ensures
        r == rank(token@),
{
    if same_text(token, "ctrl") {
        0
    } else if same_text(token, "shift") {
        1
    } else if same_text(token, "alt") {
        2
    } else {
        3
    }
}

/// Whether token `a` is rendered before token `b`.
pub fn combo_before(a: &str, b: &str) -> (r: bool)
    ensures
        r == combo_less(a@, b@),
{
    let rank_a = rank_of(a);
    let rank_b = rank_of(b);
    if rank_a != rank_b {
        rank_a < rank_b
    } else {
        let chars_a = chars_of(a);
        let chars_b = chars_of(b);
        lex_before(&chars_a, &chars_b)
    }
}

/// Puts a token into a sorted list at its place, unless the list holds it.
pub fn insert_token(sorted: &mut Vec<String>, token: String)
    requires
        strictly_sorted(texts(old(sorted)@)),
    ensures
        strictly_sorted(texts(final(sorted)@)),
        texts(final(sorted)@).to_set() == texts(old(sorted)@).to_set().insert(token@),
{
    broadcast use vstd::seq_lib::lemma_seq_contains;

    let ghost before = texts(sorted@);
    let mut i: usize = 0;
    while i < sorted.len() && combo_before(sorted[i].as_str(), token.as_str())
        invariant
            i <= sorted.len(),
            sorted@ == old(sorted)@,
            before == texts(sorted@),
            forall|k: int| 0 <= k < i ==> combo_less(before[k], token@),
        decreases sorted.len() - i,
    {
        i += 1;
    }
    let ghost token_text = token@;
    if i < sorted.len() && same_text(sorted[i].as_str(), token.as_str()) {
        assert(before[i as int] == token@);
    } else {
        sorted.insert(i, token);
        proof {
            if i < before.len() {
                lemma_combo_total(before[i as int], token_text);
            }
            lemma_insert_keeps_sorted(before, i as int, token_text);
            assert(texts(sorted@) =~= before.insert(i as int, token_text));
        }
    }
}

/// The tokens joined by the separator.
pub fn join_tokens(tokens: &Vec<String>) -> (joined: String)
    ensures
        joined@ == join_plus(texts(tokens@)),
{
    let mut joined = String::new();
    let mut i: usize = 0;
    while i < tokens.len()
        invariant
            i <= tokens.len(),
            joined@ == join_plus(texts(tokens@).take(i as int)),
        decreases tokens.len() - i,
    {
        let ghost next = texts(tokens@).take(i + 1);
        assert(next.drop_last() == texts(tokens@).take(i as int));
        if i > 0 {
            push_char(&mut joined, '+');
        }
        joined.append(tokens[i].as_str());
        i += 1;
    }
    assert(texts(tokens@).take(tokens.len() as int) == texts(tokens@));
    joined
}

/// The pieces of a text between its separators.
pub fn split_pieces(text: &str) -> (pieces: Vec<String>)
    ensures
        texts(pieces@) == split_plus(text@),
{
    let chars = chars_of(text);
    let mut pieces: Vec<String> = Vec::new();
    let mut current = String::new();
    let mut i: usize = 0;
    while i < chars.len()
        invariant
            i <= chars.len(),
            chars@ == text@,
            texts(pieces@).push(current@) == split_plus(chars@.take(i as int)),
        decreases chars.len() - i,
    {
        assert(chars@.take(i + 1).drop_last() == chars@.take(i as int));
        if chars[i] == '+' {
            pieces.push(current);
            current = String::new();
        } else {
            push_char(&mut current, chars[i]);
        }
        i += 1;
    }
    assert(chars@.take(chars.len() as int) == chars@);
    pieces.push(current);
    pieces
}

/// The tokens in rendering order, each once.
pub fn sort_tokens(tokens: &Vec<String>) -> (sorted: Vec<String>)
    ensures
        texts(sorted@) == sorted_tokens(texts(tokens@).to_set()),
        strictly_sorted(texts(sorted@)),
        texts(sorted@).to_set() == texts(tokens@).to_set(),
{
    let mut sorted: Vec<String> = Vec::new();
    let mut i: usize = 0;
    while i < tokens.len()
        invariant
            i <= tokens.len(),
            strictly_sorted(texts(sorted@)),
            texts(sorted@).to_set() == texts(tokens@).take(i as int).to_set(),
        decreases tokens.len() - i,
    {
        insert_token(&mut sorted, tokens[i].clone());
        proof {
            lemma_take_step_set(texts(tokens@), i as int);
        }
        i += 1;
    }
    assert(texts(tokens@).take(tokens.len() as int) == texts(tokens@));
    proof {
        lemma_sorted_tokens_of_list(texts(sorted@));
    }
    sorted
}

/// Renders a combination: its tokens in order, each once, joined by the
/// separator. The order in which the tokens are given does not matter.
pub fn render(tokens: &Vec<String>) -> (combo: String)
    ensures
        combo@ == rendered(texts(tokens@).to_set()),
{
    let sorted = sort_tokens(tokens);
    join_tokens(&sorted)
}

/// The tokens among the first `i + 1` of a list are those among the first
/// `i` and the one at `i`.
pub proof fn lemma_take_step_set(tokens: Seq<Seq<char>>, i: int)
    requires
        0 <= i < tokens.len(),
    ensures
        tokens.take(i + 1).to_set() == tokens.take(i).to_set().insert(tokens[i]),
{
    broadcast use vstd::seq_lib::lemma_seq_contains;

    let small = tokens.take(i);
    let large = tokens.take(i + 1);
    assert forall|x: Seq<char>| large.to_set().contains(x) <==> small.to_set().insert(
        tokens[i],
    ).contains(x) by {
        if large.to_set().contains(x) {
            let k = choose|k: int| 0 <= k < large.len() && large[k] == x;
            if k < i {
                assert(small[k] == x);
            }
        }
        if small.to_set().contains(x) {
            let k = choose|k: int| 0 <= k < small.len() && small[k] == x;
            assert(large[k] == x);
        }
        if x == tokens[i] {
            assert(large[i] == x);
        }
    }
    assert(large.to_set() =~= small.to_set().insert(tokens[i]));
}

/// The canonical tokens of the pieces of a combination, in rendering order,
/// each once.
pub fn combination_tokens(key_combination: &str) -> (sorted: Vec<String>)
    ensures
        texts(sorted@) == sorted_tokens(tokens_of(key_combination@)),
        strictly_sorted(texts(sorted@)),
        texts(sorted@).to_set() == tokens_of(key_combination@),
{
    let pieces = split_pieces(key_combination);
    let mut tokens: Vec<String> = Vec::new();
    let mut i: usize = 0;
    while i < pieces.len()
        invariant
            i <= pieces.len(),
            tokens.len() == i,
            texts(tokens@) == canonical_tokens(texts(pieces@).take(i as int)),
        decreases pieces.len() - i,
    {
        let ghost done = texts(tokens@);
        let token = normalize_token(pieces[i].as_str());
        tokens.push(token);
        proof {
            let goal = canonical_tokens(texts(pieces@).take(i + 1));
            assert forall|k: int| 0 <= k < goal.len() implies texts(tokens@)[k] == goal[k] by {
                if k < i {
                    assert(done[k] == canonical_token(texts(pieces@).take(i as int)[k]));
                }
            }
        }
        i += 1;
    }
    assert(texts(pieces@).take(pieces.len() as int) == texts(pieces@));
    sort_tokens(&tokens)
}

/// Brings a combination written as text into its normal form: the pieces
/// between the separators become canonical tokens, which are rendered in
/// order, each once.
pub fn normalize_key_combination(key_combination: &str) -> (combo: String)
    ensures
        combo@ == normalized(key_combination@),
{
    let sorted = combination_tokens(key_combination);
    join_tokens(&sorted)
}

/// Every token of the set is canonical and holds no separator.
pub open spec fn all_stable(tokens: Set<Seq<char>>) -> bool {
    forall|token: Seq<char>| #[trigger]
        tokens.contains(token) ==> canonical_token(token) == token && !token.contains(
            separator(),
        )
}

/// Whether a token is canonical and holds no separator.
pub fn is_stable_token(token: &str) -> (stable: bool)
    ensures
        stable == (canonical_token(token@) == token@ && !token@.contains(separator())),
{
    let again = normalize_token(token);
    if !same_text(again.as_str(), token) {
        return false;
    }
    let chars = chars_of(token);
    let mut i: usize = 0;
    while i < chars.len()
        invariant
            i <= chars.len(),
            chars@ == token@,
            forall|k: int| 0 <= k < i ==> chars@[k] != separator(),
        decreases chars.len() - i,
    {
        if chars[i] == '+' {
            return false;
        }
        i += 1;
    }
    true
}

/// Brings a combination into its normal form and tells whether each of its
/// tokens is canonical and holds no separator. Where that is so, the normal
/// form is its own normal form: normalizing it again changes nothing.
pub fn normalize_and_check(key_combination: &str) -> (r: (String, bool))
    ensures
        r.0@ == normalized(key_combination@),
        r.1 == all_stable(tokens_of(key_combination@)),
        r.1 ==> normalized(r.0@) == r.0@,
{
    broadcast use vstd::seq_lib::lemma_seq_contains;

    let sorted = combination_tokens(key_combination);
    let combo = join_tokens(&sorted);
    let ghost tokens = tokens_of(key_combination@);
    let mut stable = true;
    let mut i: usize = 0;
    while i < sorted.len()
        invariant
            i <= sorted.len(),
            texts(sorted@).to_set() == tokens,
            stable == (forall|k: int|
                0 <= k < i ==> canonical_token(#[trigger] texts(sorted@)[k]) == texts(sorted@)[k]
                    && !texts(sorted@)[k].contains(separator())),
        decreases sorted.len() - i,
    {
        let here = is_stable_token(sorted[i].as_str());
        assert(texts(sorted@)[i as int] == sorted@[i as int]@);
        stable = stable && here;
        i += 1;
    }
    proof {
        let list = texts(sorted@);
        if stable {
            assert forall|token: Seq<char>| #[trigger] tokens.contains(token) implies canonical_token(
                token,
            ) == token && !token.contains(separator()) by {
                assert(list.contains(token));
                let k = choose|k: int| 0 <= k < list.len() && list[k] == token;
                assert(canonical_token(list[k]) == list[k]);
            }
            vstd::seq_lib::seq_to_set_is_finite(list);
            lemma_render_is_stable(tokens);
        } else {
            let k = choose|k: int|
                0 <= k < list.len() && !(canonical_token(#[trigger] list[k]) == list[k]
                    && !list[k].contains(separator()));
            assert(tokens.contains(list[k]));
        }
    }
    (combo, stable)
}

/// A text that holds no separator is its own single piece.
pub proof fn lemma_split_plain(text: Seq<char>)
    requires
        !text.contains(separator()),
    ensures
        split_plus(text) == seq![text],
    decreases text.len(),
{
    if text.len() > 0 {
        let front = text.drop_last();
        assert forall|i: int| 0 <= i < front.len() implies front[i] != separator() by {
            assert(text[i] == front[i]);
        }
        lemma_split_plain(front);
        assert(text.last() != separator());
        assert(seq![front].drop_last().push(front.push(text.last())) =~= seq![text]) by {
            assert(front.push(text.last()) =~= text);
        }
    } else {
        assert(text =~= Seq::<char>::empty());
    }
}

/// Behind a separator, a piece that holds none is the last piece of the
/// text.
pub proof fn lemma_split_append(head: Seq<char>, piece: Seq<char>)
    requires
        !piece.contains(separator()),
    ensures
        split_plus(head + seq![separator()] + piece) == split_plus(head).push(piece),
    decreases piece.len(),
{
    let text = head + seq![separator()] + piece;
    if piece.len() == 0 {
        assert(text.drop_last() =~= head);
        assert(piece =~= Seq::<char>::empty());
    } else {
        let front = piece.drop_last();
        assert forall|i: int| 0 <= i < front.len() implies front[i] != separator() by {
            assert(piece[i] == front[i]);
        }
        lemma_split_append(head, front);
        assert(text.drop_last() =~= head + seq![separator()] + front);
        assert(text.last() == piece.last());
        assert(piece.last() != separator());
        assert(front.push(piece.last()) =~= piece);
        assert(split_plus(head).push(front).drop_last() =~= split_plus(head));
    }
}

/// Splitting the joined text of a list of pieces gives the pieces back,
/// where there is a piece and none holds a separator.
pub proof fn lemma_split_join(pieces: Seq<Seq<char>>)
    requires
        pieces.len() > 0,
        forall|i: int| 0 <= i < pieces.len() ==> !pieces[i].contains(separator()),
    ensures
        split_plus(join_plus(pieces)) == pieces,
    decreases pieces.len(),
{
    if pieces.len() == 1 {
        lemma_split_plain(pieces[0]);
        assert(seq![pieces[0]] =~= pieces);
    } else {
        let front = pieces.drop_last();
        assert forall|i: int| 0 <= i < front.len() implies !front[i].contains(separator()) by {
            assert(front[i] == pieces[i]);
        }
        lemma_split_join(front);
        lemma_split_append(join_plus(front), pieces.last());
        assert(front.push(pieces.last()) =~= pieces);
    }
}

/// Rendering does not depend on the order in which the tokens are met: two
/// lists of which one is a rearrangement of the other render alike.
pub proof fn lemma_render_ignores_order(a: Seq<Seq<char>>, b: Seq<Seq<char>>)
    requires
        a.to_multiset() == b.to_multiset(),
    ensures
        rendered(a.to_set()) == rendered(b.to_set()),
{
    broadcast use vstd::seq_lib::lemma_seq_contains;

    a.to_multiset_ensures();
    b.to_multiset_ensures();
    assert forall|x: Seq<char>| a.to_set().contains(x) <==> b.to_set().contains(x) by {
        assert(a.contains(x) <==> a.to_multiset().count(x) > 0);
        assert(b.contains(x) <==> b.to_multiset().count(x) > 0);
    }
    assert(a.to_set() =~= b.to_set());
}

/// Rendering is stable: the rendered text of a set of canonical tokens,
/// none of which holds a separator, is its own normal form.
pub proof fn lemma_render_is_stable(tokens: Set<Seq<char>>)
    requires
        tokens.finite(),
        all_stable(tokens),
    ensures
        normalized(rendered(tokens)) == rendered(tokens),
{
    broadcast use vstd::seq_lib::lemma_seq_contains;

    lemma_sorted_exists(tokens);
    let sorted = sorted_tokens(tokens);
    if sorted.len() == 0 {
        let blank = Seq::<char>::empty();
        let single = seq![blank];
        assert(join_plus(sorted) == blank);
        assert(split_plus(blank) == single);
        assert(canonical_tokens(single) =~= single);
        assert(strictly_sorted(single));
        lemma_sorted_tokens_of_list(single);
        assert(join_plus(single) == blank);
    } else {
        assert forall|i: int| 0 <= i < sorted.len() implies !sorted[i].contains(separator())
            && canonical_token(sorted[i]) == sorted[i] by {
            let token = sorted[i];
            assert(sorted.contains(token));
            assert(sorted.to_set().contains(token));
            assert(tokens.contains(token));
        }
        lemma_split_join(sorted);
        assert(canonical_tokens(sorted) =~= sorted);
    }
}

/// The joined text of a list of tokens is at least as long as each token.
pub proof fn lemma_join_length(tokens: Seq<Seq<char>>, i: int)
    requires
        0 <= i < tokens.len(),
    ensures
        join_plus(tokens).len() >= tokens[i].len(),
    decreases tokens.len(),
{
    if tokens.len() > 1 {
        if i < tokens.len() - 1 {
            lemma_join_length(tokens.drop_last(), i);
            assert(tokens.drop_last()[i] == tokens[i]);
        }
    }
}

/// The rendering of a finite set of tokens is not empty where one of the
/// tokens is not.
pub proof fn lemma_rendered_not_empty(tokens: Set<Seq<char>>, token: Seq<char>)
    requires
        tokens.finite(),
        tokens.contains(token),
        token.len() > 0,
    ensures
        rendered(tokens).len() > 0,
{
    broadcast use vstd::seq_lib::lemma_seq_contains;

    lemma_sorted_exists(tokens);
    let sorted = sorted_tokens(tokens);
    assert(sorted.to_set().contains(token));
    assert(sorted.contains(token));
    let i = choose|i: int| 0 <= i < sorted.len() && sorted[i] == token;
    lemma_join_length(sorted, i);
}

} // verus!
