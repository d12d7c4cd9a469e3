//! What byte-pair encoding is for: which pair is joined first, what is left
//! when nothing joins, and that tokens spell their text.

use crate::text::{decimal, decimal_reads_back, is_digit, is_space, run_is, starts_with};
use crate::tokenizer::{
    best_pair, bpe_of, decimal_digits, entries_from, entry_at, escape_at, framed, hex4, hex_digit, hex_digits, ids_of, is_letter, is_other, letters, match_len, matches_of, merged, merged_flat, merged_fully, merged_shrinks, merging_keeps_text, numeric, others, pair_key, printable, ranks_of, resized, space_or, start_word, surface, surface_code, tokens_of,
    key_from, unprintable_below, vocab_of,
};
use vstd::prelude::*;

verus! {

/// The pair at `j`, as a merge file writes it.
pub open spec fn pair_at(word: Seq<Seq<char>>, j: int) -> Seq<char> {
    word[j] + " "@ + word[j + 1]
}

/// The search finds a ranked pair exactly where there is one; the pair it
/// finds has the lowest rank of all, and of those with that rank it is the
/// leftmost.
pub proof fn the_lowest_rank_is_found(word: Seq<Seq<char>>, ranks: Map<Seq<char>, usize>, n: nat)
    requires
        n < word.len(),
    ensures
        match best_pair(word, ranks, n) {
            Some((rank, i)) => {
                &&& 0 <= i < n
                &&& ranks.contains_key(pair_at(word, i))
                &&& ranks[pair_at(word, i)] == rank
                &&& forall|j: int| #![trigger pair_at(word, j)]
                    0 <= j < n && ranks.contains_key(pair_at(word, j)) ==> rank <= ranks[pair_at(word, j)]
                &&& forall|j: int| #![trigger pair_at(word, j)]
                    0 <= j < i && ranks.contains_key(pair_at(word, j)) ==> rank < ranks[pair_at(word, j)]
            },
            None => forall|j: int| #![trigger pair_at(word, j)] 0 <= j < n ==> !ranks.contains_key(pair_at(word, j)),
        },
    decreases n,
{
    if n > 0 {
        the_lowest_rank_is_found(word, ranks, (n - 1) as nat);
        let key = pair_key(word[n - 1], word[n as int]);
        assert(key == pair_at(word, n - 1));
    }
}

/// Joining the pair `a`, `b` leaves it nowhere: no `a` is followed by a `b`.
/// Every symbol that is left is one of the word's or the two joined.
pub proof fn a_joined_pair_is_gone(word: Seq<Seq<char>>, i: int, a: Seq<char>, b: Seq<char>)
    requires
        0 <= i <= word.len(),
        a.len() > 0,
        b.len() > 0,
    ensures
        forall|k: int| #![trigger merged(word, i, a, b)[k]]
            0 <= k < merged(word, i, a, b).len() - 1 ==> !(merged(word, i, a, b)[k] == a && merged(word, i, a, b)[k + 1] == b),
        forall|k: int| #![trigger merged(word, i, a, b)[k]]
            0 <= k < merged(word, i, a, b).len() ==> merged(word, i, a, b)[k] == a + b || word.contains(
                merged(word, i, a, b)[k],
            ),
        i < word.len() ==> merged(word, i, a, b).len() > 0 && (merged(word, i, a, b)[0] == a + b || merged(
            word,
            i,
            a,
            b,
        )[0] == word[i]),
    decreases word.len() - i,
{
    let m = merged(word, i, a, b);
    if i < word.len() {
        assert((a + b).len() > a.len() && (a + b).len() > b.len());
        if i + 1 < word.len() && word[i] == a && word[i + 1] == b {
            a_joined_pair_is_gone(word, i + 2, a, b);
            let rest = merged(word, i + 2, a, b);
            assert(m =~= seq![a + b] + rest);
            assert forall|k: int| #![trigger m[k]] 0 <= k < m.len() implies m[k] == a + b || word.contains(m[k]) by {
                if k > 0 {
                    assert(m[k] == rest[k - 1]);
                }
            }
            assert forall|k: int| #![trigger m[k]] 0 <= k < m.len() - 1 implies !(m[k] == a && m[k + 1] == b) by {
                if k > 0 {
                    assert(m[k] == rest[k - 1] && m[k + 1] == rest[k - 1 + 1]);
                }
            }
        } else {
            a_joined_pair_is_gone(word, i + 1, a, b);
            let rest = merged(word, i + 1, a, b);
            assert(m =~= seq![word[i]] + rest);
            assert forall|k: int| #![trigger m[k]] 0 <= k < m.len() implies m[k] == a + b || word.contains(m[k]) by {
                if k > 0 {
                    assert(m[k] == rest[k - 1]);
                } else {
                    assert(word[i] == m[0]);
                }
            }
            assert forall|k: int| #![trigger m[k]] 0 <= k < m.len() - 1 implies !(m[k] == a && m[k + 1] == b) by {
                if k > 0 {
                    assert(m[k] == rest[k - 1] && m[k + 1] == rest[k - 1 + 1]);
                } else {
                    assert(m[1] == rest[0]);
                    if i + 1 < word.len() {
                        assert(rest[0] == a + b || rest[0] == word[i + 1]);
                    } else {
                        assert(rest.len() == 0);
                    }
                }
            }
        }
    }
}

/// When merging ends, no two neighbours have a rank.
pub proof fn no_ranked_pair_is_left(word: Seq<Seq<char>>, ranks: Map<Seq<char>, usize>)
    ensures
        forall|j: int|
            0 <= j < merged_fully(word, ranks).len() - 1 ==> !ranks.contains_key(
                #[trigger] pair_at(merged_fully(word, ranks), j),
            ),
    decreases word.len(),
{
    if word.len() > 1 {
        the_lowest_rank_is_found(word, ranks, (word.len() - 1) as nat);
        match best_pair(word, ranks, (word.len() - 1) as nat) {
            None => {
                assert(merged_fully(word, ranks) == word);
            },
            Some((_, i)) => {
                merged_shrinks(word, 0, i);
                assert(merged_fully(word, ranks) == merged_fully(merged(word, 0, word[i], word[i + 1]), ranks));
                no_ranked_pair_is_left(merged(word, 0, word[i], word[i + 1]), ranks);
            },
        }
    } else {
        assert(merged_fully(word, ranks) == word);
    }
}

/// The pair with the lowest rank, the leftmost of them, is joined first:
/// merging goes on from a word in which it is gone and which spells the same.
pub proof fn the_lowest_rank_joins_first(word: Seq<Seq<char>>, ranks: Map<Seq<char>, usize>, i: int)
    requires
        0 <= i < word.len() - 1,
        word[i].len() > 0,
        word[i + 1].len() > 0,
        ranks.contains_key(pair_at(word, i)),
        forall|j: int| #![trigger pair_at(word, j)]
            0 <= j < word.len() - 1 && ranks.contains_key(pair_at(word, j)) ==> ranks[pair_at(word, i)]
                <= ranks[pair_at(word, j)],
        forall|j: int| #![trigger pair_at(word, j)]
            0 <= j < i && ranks.contains_key(pair_at(word, j)) ==> ranks[pair_at(word, i)]
                < ranks[pair_at(word, j)],
    ensures
        exists|next: Seq<Seq<char>>|
            {
                &&& #[trigger] merged_fully(next, ranks) == merged_fully(word, ranks)
                &&& next.len() < word.len()
                &&& next.flatten() == word.flatten()
                &&& forall|k: int| #![trigger next[k]]
                    0 <= k < next.len() ==> next[k] == word[i] + word[i + 1] || word.contains(next[k])
                &&& forall|k: int| #![trigger next[k]]
                    0 <= k < next.len() - 1 ==> !(next[k] == word[i] && next[k + 1] == word[i + 1])
            },
{
    let n = (word.len() - 1) as nat;
    the_lowest_rank_is_found(word, ranks, n);
    assert(ranks.contains_key(pair_at(word, i)));
    match best_pair(word, ranks, n) {
        None => {},
        Some((rank, at)) => {
            assert(at == i);
            let next = merged(word, 0, word[i], word[i + 1]);
            merged_shrinks(word, 0, i);
            a_joined_pair_is_gone(word, 0, word[i], word[i + 1]);
            merged_flat(word, 0, word[i], word[i + 1]);
            assert(word.skip(0) =~= word);
            assert(merged_fully(next, ranks) == merged_fully(word, ranks));
        },
    }
}

/// What bytes look like before they are merged.
pub open spec fn surfaces(bytes: Seq<u8>) -> Seq<char> {
    Seq::new(bytes.len(), |k: int| surface(bytes[k]))
}

proof fn singles_flatten(w: Seq<Seq<char>>, s: Seq<char>)
    requires
        w.len() == s.len(),
        forall|k: int| 0 <= k < w.len() ==> #[trigger] w[k] == seq![s[k]],
    ensures
        w.flatten() == s,
    decreases w.len(),
{
    if w.len() > 0 {
        let t = w.drop_first();
        assert forall|k: int| 0 <= k < t.len() implies #[trigger] t[k] == seq![s.skip(1)[k]] by {
            assert(t[k] == w[k + 1]);
        }
        singles_flatten(t, s.skip(1));
        assert(w.first() == w[0]);
        assert(w.flatten() =~= s);
    } else {
        assert(w.flatten() =~= s);
    }
}

/// The tokens of a piece spell its bytes, each by its surface, and the
/// end-of-word mark behind the last.
pub proof fn tokens_spell_their_piece(piece: Seq<char>, ranks: Map<Seq<char>, usize>)
    requires
        piece.len() > 0,
    ensures
        bpe_of(piece, ranks).flatten() == surfaces(vstd::utf8::encode_utf8(piece)) + "</w>"@,
{
    let bytes = vstd::utf8::encode_utf8(piece);
    let w = start_word(piece);
    vstd::utf8::encode_utf8_first_scalar(piece);
    merging_keeps_text(w, ranks);
    let n = bytes.len() as int;
    let head = w.drop_last();
    let s = surfaces(bytes);
    assert forall|k: int| 0 <= k < head.len() implies #[trigger] head[k] == seq![s.drop_last()[k]] by {
        assert(head[k] == w[k]);
    }
    singles_flatten(head, s.drop_last());
    assert(w.last() == seq![s[n - 1]] + "</w>"@);
    w.lemma_flatten_and_flatten_alt_are_equivalent();
    head.lemma_flatten_and_flatten_alt_are_equivalent();
    assert(w.flatten_alt() == head.flatten_alt() + w.last());
    assert(s.drop_last() + (seq![s[n - 1]] + "</w>"@) =~= s + "</w>"@);
}

/// Whether a merge file's line ranks a pair.
pub open spec fn ranks_a_pair(line: Seq<char>) -> bool {
    line.len() > 0 && !crate::text::starts_with(line, "#version"@)
}

/// Earlier lines rank lower, from zero on, where no line comes twice.
pub proof fn earlier_lines_rank_lower(ls: Seq<Seq<char>>)
    requires
        ls.no_duplicates(),
        ls.len() <= usize::MAX,
        ranks_of(ls) is Ok,
    ensures
        forall|i: int| #![trigger ls[i]]
            0 <= i < ls.len() && ranks_a_pair(ls[i]) ==> (ranks_of(ls)->Ok_0).0.contains_key(ls[i])
                && (ranks_of(ls)->Ok_0).0[ls[i]] <= i,
        forall|i: int, j: int| #![trigger ls[i], ls[j]]
            0 <= i < j < ls.len() && ranks_a_pair(ls[i]) && ranks_a_pair(ls[j]) ==> (ranks_of(ls)->Ok_0).0[ls[i]] < (
            ranks_of(ls)->Ok_0).0[ls[j]],
        forall|k: Seq<char>| #[trigger] (ranks_of(ls)->Ok_0).0.contains_key(k) ==> ls.contains(k) && ranks_a_pair(k)
            && (ranks_of(ls)->Ok_0).0[k] < (ranks_of(ls)->Ok_0).1,
        (ranks_of(ls)->Ok_0).1 <= ls.len(),
    decreases ls.len(),
{
    if ls.len() > 0 {
        let t = ls.drop_last();
        assert forall|i: int, j: int| 0 <= i < t.len() && 0 <= j < t.len() && i != j implies t[i] != t[j] by {
            assert(ls[i] != ls[j]);
        }
        earlier_lines_rank_lower(t);
        let (r, n) = ranks_of(t)->Ok_0;
        let line = ls.last();
        assert(!r.contains_key(line)) by {
            if r.contains_key(line) {
                assert(t.contains(line));
                let q = choose|q: int| 0 <= q < t.len() && t[q] == line;
                assert(ls[q] == ls[ls.len() - 1]);
            }
        }
        let (r2, n2) = ranks_of(ls)->Ok_0;
        assert forall|i: int| #![trigger ls[i]] 0 <= i < ls.len() && ranks_a_pair(ls[i]) implies r2.contains_key(ls[i]) && r2[ls[i]]
            <= i by {
            if i < t.len() {
                assert(t[i] == ls[i]);
                assert(ls[i] != line);
            }
        }
        assert forall|i: int, j: int| #![trigger ls[i], ls[j]]
            0 <= i < j < ls.len() && ranks_a_pair(ls[i]) && ranks_a_pair(ls[j]) implies r2[ls[i]] < r2[ls[j]] by {
            assert(t[i] == ls[i]);
            assert(ls[i] != line);
            assert(r.contains_key(t[i]));
            if j < t.len() {
                assert(t[j] == ls[j]);
                assert(ls[j] != line);
            }
        }
        assert forall|k: Seq<char>| #[trigger] r2.contains_key(k) implies ls.contains(k) && ranks_a_pair(k) && r2[k] < n2 by {
            if r.contains_key(k) {
                assert(t.contains(k));
                let q = choose|q: int| 0 <= q < t.len() && t[q] == k;
                assert(ls[q] == k);
            } else {
                assert(k == line && ls[ls.len() - 1] == k);
            }
        }
    }
}

/// Framed, the ids stand in order between the start and the end; those that
/// do not fit are cut off at the back.
pub proof fn frames_keep_the_ids(ids: Seq<u32>, bos: u32, eos: u32, max_len: nat, i: int)
    requires
        max_len >= 2,
    ensures
        ({
            let kept = if ids.len() + 2 <= max_len {
                ids.len() as int
            } else {
                max_len - 2
            };
            let f = framed(ids, bos, eos, max_len);
            &&& f.len() == kept + 2
            &&& f[0] == bos
            &&& 0 <= i < kept ==> f[i + 1] == ids[i]
            &&& f[kept + 1] == eos
        }),
{
}

/// Padding goes behind: what was there stays where it was.
pub proof fn padding_goes_behind(s: Seq<u32>, n: nat, fill: u32, i: int)
    requires
        0 <= i < n,
    ensures
        resized(s, n, fill).len() == n,
        i < s.len() ==> resized(s, n, fill)[i] == s[i],
        i >= s.len() ==> resized(s, n, fill)[i] == fill,
{
}

/// A token has the id the vocabulary gives it; one that is not in it has the
/// end token's.
pub proof fn tokens_have_their_ids(tokens: Seq<Seq<char>>, vocab: Map<Seq<char>, u32>, eos: u32, i: int)
    requires
        0 <= i < tokens.len(),
    ensures
        ids_of(tokens, vocab, eos).len() == tokens.len(),
        vocab.contains_key(tokens[i]) ==> ids_of(tokens, vocab, eos)[i] == vocab[tokens[i]],
        !vocab.contains_key(tokens[i]) ==> ids_of(tokens, vocab, eos)[i] == eos,
{
}

/// The tokens of several pieces are those of each, in order.
pub proof fn pieces_are_tokenized_in_order(a: Seq<Seq<char>>, b: Seq<Seq<char>>, ranks: Map<Seq<char>, usize>)
    ensures
        tokens_of(a + b, ranks) == tokens_of(a, ranks) + tokens_of(b, ranks),
        a.len() == 1 ==> tokens_of(a, ranks) == bpe_of(a[0], ranks),
    decreases b.len(),
{
    if a.len() == 1 {
        assert(a.drop_last() =~= Seq::empty());
        assert(tokens_of(a.drop_last(), ranks) =~= Seq::empty());
        assert(Seq::empty() + bpe_of(a[0], ranks) =~= bpe_of(a[0], ranks));
    }
    if b.len() == 0 {
        assert(a + b =~= a);
        assert(tokens_of(a, ranks) + Seq::<Seq<char>>::empty() =~= tokens_of(a, ranks));
    } else {
        pieces_are_tokenized_in_order(a, b.drop_last(), ranks);
        assert((a + b).drop_last() =~= a + b.drop_last());
        assert((a + b).last() == b.last());
        let (x, y, z) = (tokens_of(a, ranks), tokens_of(b.drop_last(), ranks), bpe_of(b.last(), ranks));
        assert(x + y + z =~= x + (y + z));
    }
}

/// A word of letters alone is one piece.
pub proof fn a_word_is_one_piece(s: Seq<char>)
    requires
        s.len() > 0,
        forall|i: int| 0 <= i < s.len() ==> is_letter(#[trigger] s[i]),
        s[0] != '\'',
    ensures
        matches_of(s) == seq![s],
{
    assert(is_letter(s[0]));
    assert(!crate::text::is_space(s[0]));
    assert forall|i: int| 0 <= i < s.len() implies letters()(#[trigger] s[i]) by {
    }
    crate::text::run_is(s, letters(), s.len());
    assert(s.take(s.len() as int) =~= s);
    assert(s.skip(s.len() as int) =~= Seq::empty());
    assert(matches_of(s.skip(s.len() as int)) =~= Seq::empty());
    assert(seq![s] + Seq::<Seq<char>>::empty() =~= seq![s]);
}

/// Digits are pieces of their own, and the text behind one goes on by itself.
pub proof fn a_digit_is_one_piece(s: Seq<char>)
    requires
        s.len() > 0,
        numeric(s[0]),
        !crate::text::is_space(s[0]),
        s[0] != '\'',
    ensures
        matches_of(s) == seq![seq![s[0]]] + matches_of(s.skip(1)),
{
    assert(s.take(1) =~= seq![s[0]]);
}

/// White space parts pieces and is dropped: a text is its parts around a
/// white-space character.
pub proof fn white_space_parts_pieces(a: Seq<char>, x: char, b: Seq<char>)
    requires
        crate::text::is_space(x),
    ensures
        matches_of(a + seq![x] + b) == matches_of(a) + matches_of(b),
    decreases a.len(),
{
    let s = a + seq![x] + b;
    if a.len() == 0 {
        assert(s[0] == x);
        assert(s.skip(1) =~= b);
        assert(matches_of(a) + matches_of(b) =~= matches_of(b));
    } else if crate::text::is_space(a[0]) {
        assert(s.skip(1) =~= a.skip(1) + seq![x] + b);
        white_space_parts_pieces(a.skip(1), x, b);
    } else {
        same_match(a, x, b);
        let n = match_len(a) as int;
        assert(s.take(n) =~= a.take(n));
        assert(s.skip(n) =~= a.skip(n) + seq![x] + b);
        white_space_parts_pieces(a.skip(n), x, b);
        let (h, t, u) = (seq![a.take(n)], matches_of(a.skip(n)), matches_of(b));
        assert(h + (t + u) =~= (h + t) + u);
    }
}

/// A match does not look past white space.
proof fn same_match(a: Seq<char>, x: char, b: Seq<char>)
    requires
        crate::text::is_space(x),
        a.len() > 0,
        !crate::text::is_space(a[0]),
    ensures
        match_len(a + seq![x] + b) == match_len(a),
        0 < match_len(a) <= a.len(),
{
    let s = a + seq![x] + b;
    assert(s[0] == a[0]);
    assert(s[a.len() as int] == x);
    run_stops(a, x, b, letters());
    run_stops(a, x, b, others());
    crate::text::run_bound(a, letters());
    crate::text::run_bound(a, others());
    assert(is_letter(a[0]) ==> letters()(a[0]));
    assert(is_other(a[0]) ==> others()(a[0]));
    assert(a.len() >= 2 ==> s[1] == a[1]);
    assert(a.len() >= 3 ==> s[2] == a[2]);
    assert(!crate::text::is_space('s') && !crate::text::is_space('t') && !crate::text::is_space('m') && !crate::text::is_space('d'));
    assert(!crate::text::is_space('e') && !crate::text::is_space('l') && !crate::text::is_space('r') && !crate::text::is_space('v'));
}

proof fn run_stops(a: Seq<char>, x: char, b: Seq<char>, p: spec_fn(char) -> bool)
    requires
        !p(x),
    ensures
        crate::text::run(a + seq![x] + b, p) == crate::text::run(a, p),
    decreases a.len(),
{
    let s = a + seq![x] + b;
    if a.len() == 0 {
        assert(s[0] == x);
    } else {
        assert(s[0] == a[0]);
        assert(s.skip(1) =~= a.skip(1) + seq![x] + b);
        run_stops(a.skip(1), x, b, p);
    }
}

/// A byte that prints stands for itself; of those that do not, the first
/// stands as 256 and each as one more than the one before it.
pub proof fn bytes_have_their_surface(b: nat)
    requires
        b < 256,
    ensures
        33 <= b <= 126 || 161 <= b <= 172 || 174 <= b ==> surface_code(b) == b,
        surface_code(0) == 256,
        !printable(b as int) ==> surface_code(b) >= 256,
{
}

/// Of two bytes that do not print and have none such between them, the second
/// stands as one more than the first.
pub proof fn surfaces_count_up(a: nat, b: nat)
    requires
        a < b < 256,
        !printable(a as int),
        !printable(b as int),
        forall|k: int| a < k < b ==> #[trigger] printable(k),
    ensures
        surface_code(b) == surface_code(a) + 1,
{
    between(a, b);
}

proof fn between(a: nat, b: nat)
    requires
        a < b,
        !printable(a as int),
        forall|k: int| a < k < b ==> #[trigger] printable(k),
    ensures
        unprintable_below(b) == unprintable_below(a) + 1,
    decreases b,
{
    if a < b - 1 {
        assert(printable(b - 1));
        between(a, (b - 1) as nat);
    }
}

/// Hexadecimal digits go up by one, from `0`, `a` or `A` on.
pub proof fn hexadecimal_digits_count(c: char)
    ensures
        '0' <= c <= '9' ==> hex_digit(c) == Some((c as nat - '0' as nat) as nat),
        'a' <= c <= 'f' ==> hex_digit(c) == Some((10 + (c as nat - 'a' as nat)) as nat),
        'A' <= c <= 'F' ==> hex_digit(c) == Some((10 + (c as nat - 'A' as nat)) as nat),
{
}

/// Four hexadecimal digits are worth sixteen times as much from each to the
/// one before it.
pub proof fn four_digits_have_their_value(s: Seq<char>, i: int)
    requires
        0 <= i,
        i + 4 <= s.len(),
        forall|k: int| i <= k < i + 4 ==> hex_digit(#[trigger] s[k]) is Some,
    ensures
        hex4(s, i) == Some(
            (4096 * hex_digit(s[i])->0 + 256 * hex_digit(s[i + 1])->0 + 16 * hex_digit(s[i + 2])->0 + hex_digit(s[i + 3])->0) as nat,
        ),
{
    let d = s.subrange(i, i + 4);
    assert(d[0] == s[i] && d[1] == s[i + 1] && d[2] == s[i + 2] && d[3] == s[i + 3]);
    assert(d[0] != '+') by {
        assert(hex_digit(s[i]) is Some);
    }
    reveal_with_fuel(hex_digits, 5);
    let t = d.drop_last();
    assert(t.last() == d[2] && t.drop_last().last() == d[1] && t.drop_last().drop_last().last() == d[0]);
    assert(t.drop_last().drop_last().drop_last().len() == 0);
}

/// An escape `u` with four digits outside the surrogates stands for the
/// character of that number; a pair of surrogates for the one whose number,
/// less 0x10000, has the first's ten bits above the second's ten.
pub proof fn escapes_stand_for_their_numbers(s: Seq<char>, i: int)
    requires
        0 <= i,
        escape_at(s, i) is Some,
        s[i] == 'u',
        hex4(s, i + 1) is Some,
    ensures
        ({
            let (c, end) = escape_at(s, i)->0;
            let u = hex4(s, i + 1)->0;
            let v = c as int - 0x1_0000;
            &&& !(0xd800 <= u < 0xdc00) ==> c as nat == u && end == i + 5
            &&& 0xd800 <= u < 0xdc00 && hex4(s, i + 7) is Some && hex4(s, i + 7)->0 < 0xe000 ==> v >= 0 && v / 0x400 == u
                - 0xd800 && v % 0x400 == hex4(s, i + 7)->0 - 0xdc00 && end == i + 11
        }),
{
}

/// An escaped quote, backslash or slash is that character, and the letters
/// stand for their control characters.
pub proof fn short_escapes_are_one_character(s: Seq<char>, i: int)
    requires
        0 <= i < s.len(),
        s[i] != 'u',
    ensures
        ({
            let (c, end) = escape_at(s, i)->0;
            &&& escape_at(s, i) is Some && end == i + 1
            &&& s[i] == '"' || s[i] == '\\' || s[i] == '/' ==> c == s[i]
            &&& s[i] == 'b' <==> c as nat == 8 && s[i] != c
            &&& s[i] == 't' <==> c as nat == 9 && s[i] != c
            &&& s[i] == 'n' <==> c as nat == 10 && s[i] != c
            &&& s[i] == 'f' <==> c as nat == 12 && s[i] != c
            &&& s[i] == 'r' <==> c as nat == 13 && s[i] != c
        }),
{
}

proof fn key_grows(s: Seq<char>, i: int, n: nat, before: Seq<char>)
    requires
        0 <= i,
        i + n < s.len(),
        s[i + n] == '"',
        forall|k: int| i <= k < i + n ==> (#[trigger] s[k]) != '"' && s[k] != '\\',
    ensures
        key_from(s, i, before) == Some((before + s.subrange(i, i + n), i + n + 1)),
    decreases n,
{
    if n == 0 {
        assert(before + s.subrange(i, i) =~= before);
    } else {
        key_grows(s, i + 1, (n - 1) as nat, before.push(s[i]));
        assert(before.push(s[i]) + s.subrange(i + 1, i + n) =~= before + s.subrange(i, i + n));
    }
}

/// A key without escapes is the text between its quotes, and its id the
/// number behind the colon.
pub proof fn entries_are_a_key_and_its_id(s: Seq<char>, i: int, n: nat, id: u32)
    requires
        0 <= i,
        s[i] == '"',
        i + 1 + n < s.len(),
        forall|k: int| i < k <= i + n ==> (#[trigger] s[k]) != '"' && s[k] != '\\',
        s[i + 1 + n] == '"',
        i + 3 + n + decimal(id as nat).len() <= s.len(),
        s[i + 2 + n] == ':',
        s.subrange(i + 3 + n, i + 3 + n + decimal(id as nat).len()) == decimal(id as nat),
        i + 3 + n + decimal(id as nat).len() < s.len() ==> !is_digit(s[i + 3 + n + decimal(id as nat).len()]),
    ensures
        entry_at(s, i) == Some((s.subrange(i + 1, i + 1 + n), id, i + 3 + n + decimal(id as nat).len())),
{
    key_grows(s, i + 1, n, Seq::empty());
    assert(Seq::<char>::empty() + s.subrange(i + 1, i + 1 + n) =~= s.subrange(i + 1, i + 1 + n));
    let j = i + 2 + n;
    let from = i + 3 + n;
    let digits = decimal(id as nat);
    let to = from + digits.len();
    decimal_reads_back(id as nat, u32::MAX as nat);
    decimal_is_digits(id as nat);
    assert(s[from] == digits[0]) by {
        assert(s.subrange(from, to)[0] == s[from]);
    }
    let a = s.skip(j);
    assert(a[0] == s[j] && a[1] == s[from]);
    run_is(a, space_or(':'), 1);
    let b = s.skip(from);
    assert forall|k: int| 0 <= k < digits.len() implies decimal_digits()(#[trigger] b[k]) by {
        assert(b[k] == s.subrange(from, to)[k]);
        assert(is_digit(digits[k]));
    }
    if to < s.len() {
        assert(b[digits.len() as int] == s[to]);
    }
    run_is(b, decimal_digits(), digits.len());
}

proof fn decimal_is_digits(n: nat)
    ensures
        decimal(n).len() > 0,
        forall|k: int| 0 <= k < decimal(n).len() ==> is_digit(#[trigger] decimal(n)[k]),
    decreases n,
{
    if n >= 10 {
        decimal_is_digits(n / 10);
    }
}

/// An apostrophe with the ending of a contraction is a piece of its own.
pub proof fn contractions_are_pieces(s: Seq<char>, ending: Seq<char>)
    requires
        ending == "'s"@ || ending == "'t"@ || ending == "'re"@ || ending == "'ve"@ || ending == "'m"@ || ending == "'ll"@
            || ending == "'d"@,
        starts_with(s, ending),
    ensures
        matches_of(s) == seq![ending] + matches_of(s.skip(ending.len() as int)),
{
    reveal_strlit("'s");
    reveal_strlit("'t");
    reveal_strlit("'re");
    reveal_strlit("'ve");
    reveal_strlit("'m");
    reveal_strlit("'ll");
    reveal_strlit("'d");
    assert forall|k: int| 0 <= k < ending.len() implies s[k] == #[trigger] ending[k] by {
        assert(s.take(ending.len() as int)[k] == s[k]);
    }
    assert(s[0] == ending[0] && s[1] == ending[1]);
    if ending.len() == 3 {
        assert(s[2] == ending[2]);
    }
    assert(match_len(s) == ending.len());
    assert(s.take(ending.len() as int) =~= ending);
}

/// A vocabulary of one token reads as that token and its id.
pub proof fn a_vocabulary_holds_its_token(key: Seq<char>, id: u32)
    requires
        forall|k: int| 0 <= k < key.len() ==> (#[trigger] key[k]) != '"' && key[k] != '\\',
    ensures
        vocab_of(seq!['{', '"'] + key + seq!['"', ':'] + decimal(id as nat) + seq!['}']) == Ok::<Map<Seq<char>, u32>, Seq<char>>(
            Map::empty().insert(key, id),
        ),
{
    let digits = decimal(id as nat);
    let s = seq!['{', '"'] + key + seq!['"', ':'] + digits + seq!['}'];
    let n = key.len() as int;
    let d = digits.len() as int;
    decimal_is_digits(id as nat);
    run_is(s, crate::text::other_than('{'), 0);
    let a = s.skip(1);
    assert(a[0] == '"');
    run_is(a, space_or(','), 0);
    assert forall|k: int| 1 < k <= 1 + n implies (#[trigger] s[k]) != '"' && s[k] != '\\' by {
        assert(s[k] == key[k - 2]);
    }
    assert(s[2 + n] == '"' && s[3 + n] == ':');
    assert(s.subrange(4 + n, 4 + n + d) =~= digits);
    assert(s[4 + n + d] == '}');
    entries_are_a_key_and_its_id(s, 1, n as nat, id);
    assert(s.subrange(2, 2 + n) =~= key);
    let next = 4 + n + d;
    let b = s.skip(next);
    assert(b[0] == '}');
    run_is(b, space_or(','), 0);
    let m = Map::<Seq<char>, u32>::empty();
    assert(entries_from(s, next, m.insert(key, id)) == Some(m.insert(key, id)));
    assert(entries_from(s, 1, m) == Some(m.insert(key, id)));
}

} // verus!
