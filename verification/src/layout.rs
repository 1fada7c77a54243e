//! Blanks between tokens do not matter.
//!
//! A space, a tab, a carriage return or a line feed that is put where one
//! lexical item ends and the next one starts changes the positions of the
//! tokens behind it, and nothing that the grammar reads: the categories of
//! the tokens stay as they are, and so do the numbers, the strings and the
//! names, and with them the tree that is parsed.

use crate::grammar::{expression, program, symbol, symbols};
use crate::token::{Category, TokenView};
use crate::tokenizer::{
    char_at, in_class, is_blank, is_digit, is_letter, item_category, item_end, item_payload,
    lemma_item_bounds, lemma_next_token_advances, lemma_run_within, next_token, run_len, scan,
    tokens_from, CharClass, Cursor,
};
use vstd::prelude::*;

verus! {

/// Whether scanning from `from` on comes to stand at `at`: `at` is where a
/// lexical item starts or where the last one ends.
pub open spec fn reaches(src: Seq<char>, from: int, at: int) -> bool
    decreases at - from,
{
    from == at || (0 <= from < at && from < src.len() && from < item_end(src, from) <= at
        && reaches(src, item_end(src, from), at))
}

/// Behind the place where the blank was put, a run is as long as it was.
proof fn lemma_run_shift(pre: Seq<char>, c: char, post: Seq<char>, q: int, class: CharClass)
    requires
        pre.len() <= q,
    ensures
        run_len(pre.push(c) + post, q + 1, class) == run_len(pre + post, q, class),
    decreases (pre + post).len() - q,
{
    let src = pre + post;
    let wide = pre.push(c) + post;
    if q < src.len() {
        assert(wide[q + 1] == src[q]);
        if in_class(class, src[q]) {
            lemma_run_shift(pre, c, post, q + 1, class);
        }
    }
}

/// Behind the place where the blank was put, every character stands one
/// place further on.
proof fn lemma_char_shift(pre: Seq<char>, c: char, post: Seq<char>, q: int)
    requires
        pre.len() <= q,
    ensures
        char_at(pre.push(c) + post, q + 1) == char_at(pre + post, q),
{
    let src = pre + post;
    let wide = pre.push(c) + post;
    if q < src.len() {
        assert(wide[q + 1] == src[q]);
    }
}

/// Behind the place where the blank was put, every item is what it was, one
/// place further on.
proof fn lemma_item_shift(pre: Seq<char>, c: char, post: Seq<char>, p: int)
    requires
        pre.len() <= p < (pre + post).len(),
    ensures
        item_end(pre.push(c) + post, p + 1) == item_end(pre + post, p) + 1,
        item_category(pre.push(c) + post, p + 1) == item_category(pre + post, p),
        forall|line: u32, category: Category|
            category.is_literal() ==> #[trigger] item_payload(
                pre.push(c) + post,
                p + 1,
                line,
                category,
            ) == item_payload(pre + post, p, 0, category),
{
    let src = pre + post;
    let wide = pre.push(c) + post;
    lemma_item_bounds(src, p);
    assert(wide[p + 1] == src[p]);
    lemma_char_shift(pre, c, post, p + 1);
    lemma_run_shift(pre, c, post, p + 1, CharClass::Digit);
    lemma_run_shift(pre, c, post, p + 1, CharClass::Word);
    lemma_run_shift(pre, c, post, p + 1, CharClass::StringBody);
    lemma_run_shift(pre, c, post, p + 2, CharClass::CommentBody);
    let whole = p + 1 + run_len(src, p + 1, CharClass::Digit);
    lemma_char_shift(pre, c, post, whole);
    lemma_char_shift(pre, c, post, whole + 1);
    lemma_run_shift(pre, c, post, whole + 1, CharClass::Digit);
    if whole + 1 < src.len() {
        assert(wide[whole + 2] == src[whole + 1]);
    }
    let end = item_end(src, p);
    assert(item_end(wide, p + 1) == end + 1);
    assert(wide.subrange(p + 1, end + 1) =~= src.subrange(p, end));
    lemma_run_within(src, p + 1, CharClass::StringBody);
    let close = p + 1 + run_len(src, p + 1, CharClass::StringBody);
    assert(wide.subrange(p + 2, close + 1) =~= src.subrange(p + 1, close));
    assert(item_category(wide, p + 1) == item_category(src, p));
}

/// Tokens that the grammar reads alike, before sequences of tokens that it
/// reads alike, make sequences that it reads alike.
proof fn lemma_symbols_cons(a: TokenView, more_a: Seq<TokenView>, b: TokenView, more_b: Seq<TokenView>)
    requires
        symbol(a) == symbol(b),
        symbols(more_a) == symbols(more_b),
    ensures
        symbols(seq![a] + more_a) == symbols(seq![b] + more_b),
{
    let left = symbols(seq![a] + more_a);
    let right = symbols(seq![b] + more_b);
    assert(more_a.len() == symbols(more_a).len());
    assert(more_b.len() == symbols(more_b).len());
    assert(left.len() == right.len());
    assert forall|i: int| 0 <= i < left.len() implies left[i] == right[i] by {
        if i > 0 {
            assert((seq![a] + more_a)[i] == more_a[i - 1]);
            assert((seq![b] + more_b)[i] == more_b[i - 1]);
            assert(symbols(more_a)[i - 1] == symbol(more_a[i - 1]));
            assert(symbols(more_b)[i - 1] == symbol(more_b[i - 1]));
        } else {
            assert((seq![a] + more_a)[0] == a);
            assert((seq![b] + more_b)[0] == b);
        }
    }
    assert(left =~= right);
}

/// Behind the place where the blank was put, the scanner finds the token
/// that it found, one place further on.
proof fn lemma_next_shift(pre: Seq<char>, c: char, post: Seq<char>, cursor: Cursor, shifted: Cursor)
    requires
        pre.len() <= cursor.pos <= (pre + post).len(),
        shifted.pos == cursor.pos + 1,
    ensures
        ({
            let (token, behind) = next_token(pre + post, cursor);
            let (found, beyond) = next_token(pre.push(c) + post, shifted);
            symbol(found) == symbol(token) && beyond.pos == behind.pos + 1
        }),
    decreases (pre + post).len() - cursor.pos,
{
    let src = pre + post;
    let wide = pre.push(c) + post;
    if cursor.pos < src.len() {
        lemma_item_shift(pre, c, post, cursor.pos);
        lemma_item_bounds(src, cursor.pos);
        let end = item_end(src, cursor.pos);
        if item_category(src, cursor.pos).is_none() {
            lemma_next_shift(
                pre,
                c,
                post,
                Cursor { pos: end, ..cursor.advance(src, end) },
                Cursor { pos: end + 1, ..shifted.advance(wide, end + 1) },
            );
        }
    }
}

/// Behind the place where the blank was put, the scanner finds the tokens
/// that it found.
proof fn lemma_tokens_shift(
    pre: Seq<char>,
    c: char,
    post: Seq<char>,
    cursor: Cursor,
    shifted: Cursor,
)
    requires
        pre.len() <= cursor.pos <= (pre + post).len(),
        shifted.pos == cursor.pos + 1,
    ensures
        symbols(tokens_from(pre.push(c) + post, shifted)) == symbols(
            tokens_from(pre + post, cursor),
        ),
    decreases (pre + post).len() - cursor.pos,
{
    let src = pre + post;
    let wide = pre.push(c) + post;
    lemma_next_shift(pre, c, post, cursor, shifted);
    lemma_next_token_advances(src, cursor);
    lemma_next_token_advances(wide, shifted);
    let (token, behind) = next_token(src, cursor);
    let (found, beyond) = next_token(wide, shifted);
    if token.category != Category::EndOfFile {
        lemma_tokens_shift(pre, c, post, behind, beyond);
        lemma_symbols_cons(found, tokens_from(wide, beyond), token, tokens_from(src, behind));
    } else {
        lemma_symbols_cons(found, Seq::empty(), token, Seq::empty());
        assert(seq![found] + Seq::<TokenView>::empty() =~= seq![found]);
        assert(seq![token] + Seq::<TokenView>::empty() =~= seq![token]);
    }
}

/// A run that starts before the place where the blank was put is as long as
/// it was if it ended before that place, ends at that place if it reached it
/// and the blank is not of its class, and goes on over the blank otherwise.
proof fn lemma_run_prefix(pre: Seq<char>, c: char, post: Seq<char>, q: int, class: CharClass)
    requires
        0 <= q <= pre.len(),
    ensures
        ({
            let src = pre + post;
            let wide = pre.push(c) + post;
            let end = q + run_len(src, q, class);
            &&& end < pre.len() ==> run_len(wide, q, class) == run_len(src, q, class)
            &&& end >= pre.len() && !in_class(class, c) ==> q + run_len(wide, q, class)
                == pre.len()
            &&& end >= pre.len() && in_class(class, c) ==> q + run_len(wide, q, class) == end + 1
        }),
    decreases pre.len() - q,
{
    let src = pre + post;
    let wide = pre.push(c) + post;
    if q < pre.len() {
        assert(wide[q] == src[q]);
        if in_class(class, src[q]) {
            lemma_run_prefix(pre, c, post, q + 1, class);
        }
    } else {
        assert(wide[q] == c);
        lemma_run_shift(pre, c, post, q, class);
    }
}

/// An item that ends at or before the place where the blank was put is what
/// it was.  It also ends where it ended, unless it is a comment or an open
/// string that ran to the end of the source: that one takes the blank too.
proof fn lemma_item_before(pre: Seq<char>, c: char, post: Seq<char>, p: int)
    requires
        is_blank(c),
        0 <= p < pre.len(),
        item_end(pre + post, p) <= pre.len(),
    ensures
        ({
            let src = pre + post;
            let wide = pre.push(c) + post;
            let end = item_end(src, p);
            &&& item_category(wide, p) == item_category(src, p)
            &&& forall|line: u32, category: Category|
                category.is_literal() && item_category(src, p) == Some(category)
                    ==> #[trigger] item_payload(wide, p, line, category) == item_payload(
                    src,
                    p,
                    0,
                    category,
                )
            &&& item_end(wide, p) == end || (end == src.len() && item_end(wide, p) == end + 1 && (
            item_category(src, p).is_none() || item_category(src, p) == Some(Category::Error)))
        }),
{
    let src = pre + post;
    let wide = pre.push(c) + post;
    let n = pre.len() as int;
    let end = item_end(src, p);
    let first = src[p];
    lemma_item_bounds(src, p);
    assert(wide[p] == src[p]);
    if p + 1 < n {
        assert(wide[p + 1] == src[p + 1]);
    } else {
        assert(wide[p + 1] == c);
    }
    if first == '=' || first == '!' || first == '<' || first == '>' {
    } else if first == '/' {
        if char_at(src, p + 1) == Some('/') {
            lemma_run_prefix(pre, c, post, p + 2, CharClass::CommentBody);
            lemma_run_within(src, p + 2, CharClass::CommentBody);
            let feed = p + 2 + run_len(src, p + 2, CharClass::CommentBody);
            if feed < n {
                assert(wide[feed] == src[feed]);
            } else {
                assert(wide[n] == c);
            }
        }
    } else if first == '"' {
        lemma_run_prefix(pre, c, post, p + 1, CharClass::StringBody);
        lemma_run_within(src, p + 1, CharClass::StringBody);
        let close = p + 1 + run_len(src, p + 1, CharClass::StringBody);
        if close < src.len() {
            assert(wide[close] == src[close]);
            assert(wide.subrange(p + 1, close) =~= src.subrange(p + 1, close));
        }
    } else if is_digit(first) {
        lemma_run_prefix(pre, c, post, p + 1, CharClass::Digit);
        lemma_run_within(src, p + 1, CharClass::Digit);
        let whole = p + 1 + run_len(src, p + 1, CharClass::Digit);
        if whole < n {
            assert(wide[whole] == src[whole]);
            if whole + 1 < n {
                assert(wide[whole + 1] == src[whole + 1]);
                lemma_run_prefix(pre, c, post, whole + 1, CharClass::Digit);
                lemma_run_within(src, whole + 1, CharClass::Digit);
            } else {
                assert(wide[whole + 1] == c);
                if whole + 1 < src.len() {
                    lemma_run_within(src, whole + 1, CharClass::Digit);
                }
            }
        } else {
            assert(wide[whole] == c);
            if whole + 1 <= src.len() {
                lemma_run_within(src, whole + 1, CharClass::Digit);
            }
        }
        assert(item_end(wide, p) == end);
        assert(wide.subrange(p, end) =~= src.subrange(p, end));
    } else if is_letter(first) {
        lemma_run_prefix(pre, c, post, p + 1, CharClass::Word);
        assert(item_end(wide, p) == end);
        assert(wide.subrange(p, end) =~= src.subrange(p, end));
    }
}

/// Whether the scanner stands in the source with the blank as it stands in
/// the source without it: at the same place before the blank, or one place
/// further on behind it.
pub open spec fn in_step(n: int, src: Seq<char>, cursor: Cursor, other: Cursor) -> bool {
    (other.pos == cursor.pos && cursor.pos <= n && reaches(src, cursor.pos, n)) || (other.pos
        == cursor.pos + 1 && n <= cursor.pos <= src.len())
}

/// From a place before the blank, the scanner finds the token that it
/// found.
proof fn lemma_next_before(pre: Seq<char>, c: char, post: Seq<char>, cursor: Cursor, other: Cursor)
    requires
        is_blank(c),
        0 <= cursor.pos <= pre.len(),
        other.pos == cursor.pos,
        reaches(pre + post, cursor.pos, pre.len() as int),
    ensures
        ({
            let (token, behind) = next_token(pre + post, cursor);
            let (found, beyond) = next_token(pre.push(c) + post, other);
            symbol(found) == symbol(token) && in_step(pre.len() as int, pre + post, behind, beyond)
        }),
    decreases pre.len() - cursor.pos,
{
    let src = pre + post;
    let wide = pre.push(c) + post;
    let n = pre.len() as int;
    lemma_next_token_advances(src, cursor);
    let (token, behind) = next_token(src, cursor);
    let (found, beyond) = next_token(wide, other);
    if cursor.pos == n {
        assert(wide[n] == c);
        let over = Cursor { pos: n + 1, ..other.advance(wide, n + 1) };
        assert(item_category(wide, n).is_none());
        assert(item_end(wide, n) == n + 1);
        assert(next_token(wide, other) == next_token(wide, over));
        lemma_next_shift(pre, c, post, cursor, over);
    } else {
        let end = item_end(src, cursor.pos);
        lemma_item_before(pre, c, post, cursor.pos);
        lemma_item_bounds(src, cursor.pos);
        lemma_item_bounds(wide, cursor.pos);
        let next = Cursor { pos: end, ..cursor.advance(src, end) };
        if item_end(wide, cursor.pos) == end {
            let wide_next = Cursor { pos: end, ..other.advance(wide, end) };
            if item_category(src, cursor.pos).is_none() {
                lemma_next_before(pre, c, post, next, wide_next);
                assert(next_token(src, cursor) == next_token(src, next));
                assert(next_token(wide, other) == next_token(wide, wide_next));
            } else {
                assert(behind == next);
                assert(beyond == wide_next);
                assert(symbol(found) == symbol(token));
            }
        } else {
            // the item ran to the end of the source and takes the blank too
            let wide_next = Cursor { pos: end + 1, ..other.advance(wide, end + 1) };
            if item_category(src, cursor.pos).is_none() {
                assert(next_token(src, cursor) == next_token(src, next));
                assert(next_token(wide, other) == next_token(wide, wide_next));
                assert(behind == next);
                assert(beyond == wide_next);
            } else {
                assert(behind == next);
                assert(beyond == wide_next);
                assert(symbol(found) == symbol(token));
            }
        }
    }
}

/// From a place before the blank, the scanner finds tokens that the grammar
/// reads as it read those that it found.
proof fn lemma_tokens_before(
    pre: Seq<char>,
    c: char,
    post: Seq<char>,
    cursor: Cursor,
    other: Cursor,
)
    requires
        is_blank(c),
        0 <= cursor.pos <= pre.len(),
        other.pos == cursor.pos,
        reaches(pre + post, cursor.pos, pre.len() as int),
    ensures
        symbols(tokens_from(pre.push(c) + post, other)) == symbols(
            tokens_from(pre + post, cursor),
        ),
    decreases pre.len() - cursor.pos,
{
    let src = pre + post;
    let wide = pre.push(c) + post;
    lemma_next_before(pre, c, post, cursor, other);
    lemma_next_token_advances(src, cursor);
    lemma_next_token_advances(wide, other);
    let (token, behind) = next_token(src, cursor);
    let (found, beyond) = next_token(wide, other);
    if token.category != Category::EndOfFile {
        if beyond.pos == behind.pos {
            lemma_tokens_before(pre, c, post, behind, beyond);
        } else {
            lemma_tokens_shift(pre, c, post, behind, beyond);
        }
        lemma_symbols_cons(found, tokens_from(wide, beyond), token, tokens_from(src, behind));
    } else {
        lemma_symbols_cons(found, Seq::empty(), token, Seq::empty());
        assert(seq![found] + Seq::<TokenView>::empty() =~= seq![found]);
        assert(seq![token] + Seq::<TokenView>::empty() =~= seq![token]);
    }
}

/// A blank between two lexical items changes nothing that the grammar reads:
/// the tokens of the source with the blank have the categories of the tokens
/// of the source without it, and the same numbers, strings and names, so
/// that both sources parse to the same tree, or fail alike.
pub proof fn lemma_blank_between_items(pre: Seq<char>, c: char, post: Seq<char>)
    requires
        is_blank(c),
        reaches(pre + post, 0, pre.len() as int),
    ensures
        symbols(scan(pre.push(c) + post)) == symbols(scan(pre + post)),
        expression(symbols(scan(pre.push(c) + post)), 0) == expression(
            symbols(scan(pre + post)),
            0,
        ),
        program(symbols(scan(pre.push(c) + post)), 0) == program(symbols(scan(pre + post)), 0),
{
    lemma_tokens_before(pre, c, post, Cursor::start(), Cursor::start());
}

} // verus!
