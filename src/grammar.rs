//! The grammar of resource-bundle text, stated over characters and positions.
//!
//! `node_at(s, p, n)` is the position just after the text at `p` that spells
//! node `n`, or `None` when the text there does not spell `n`.

use vstd::prelude::*;
use crate::tree::{Node, Entry};

verus! {

pub open spec fn is_space(c: char) -> bool {
    c == ' ' || c == '\t' || c == '\n' || c == '\r'
}

pub open spec fn is_key_start(c: char) -> bool {
    let u = c as u32;
    (65 <= u <= 90) || (97 <= u <= 122) || c == '_'
}

pub open spec fn is_ident_char(c: char) -> bool {
    let u = c as u32;
    is_key_start(c) || (48 <= u <= 57) || c == '/' || c == '-' || c == '.' || c == '+'
}

pub open spec fn is_digit_char(c: char) -> bool {
    48 <= c as u32 <= 57
}

/// Where the layout (whitespace and comments) that starts at `p` ends.
/// `mode` is 0 between tokens, 1 inside a line comment, 2 inside a block
/// comment; an unterminated block comment gives `None`.
pub open spec fn layout_end(s: Seq<char>, p: int, mode: int) -> Option<int>
    decreases s.len() - p,
{
    if p < 0 || p > s.len() {
        None
    } else if p == s.len() {
        if mode == 2 {
            None
        } else {
            Some(p)
        }
    } else if mode == 1 {
        if s[p] == '\n' {
            layout_end(s, p + 1, 0)
        } else {
            layout_end(s, p + 1, 1)
        }
    } else if mode == 2 {
        if p + 1 >= s.len() {
            None
        } else if s[p] == '*' && s[p + 1] == '/' {
            layout_end(s, p + 2, 0)
        } else {
            layout_end(s, p + 1, 2)
        }
    } else if is_space(s[p]) {
        layout_end(s, p + 1, 0)
    } else if s[p] == '/' && p + 1 < s.len() && s[p + 1] == '/' {
        layout_end(s, p + 2, 1)
    } else if s[p] == '/' && p + 1 < s.len() && s[p + 1] == '*' {
        layout_end(s, p + 2, 2)
    } else {
        Some(p)
    }
}

pub open spec fn ws(s: Seq<char>, p: int) -> Option<int> {
    layout_end(s, p, 0)
}

/// End of the longest run of identifier characters from `p`.
pub open spec fn ident_stop(s: Seq<char>, p: int) -> int
    decreases s.len() - p,
{
    if 0 <= p < s.len() && is_ident_char(s[p]) {
        ident_stop(s, p + 1)
    } else {
        p
    }
}

/// End of the longest run of decimal digits from `p`.
pub open spec fn digit_stop(s: Seq<char>, p: int) -> int
    decreases s.len() - p,
{
    if 0 <= p < s.len() && is_digit_char(s[p]) {
        digit_stop(s, p + 1)
    } else {
        p
    }
}

/// Position of the quote that closes quoted text whose contents start at `p`;
/// a backslash keeps the next character from closing it.
pub open spec fn quote_close(s: Seq<char>, p: int) -> Option<int>
    decreases s.len() - p,
{
    if p < 0 || p >= s.len() {
        None
    } else if s[p] == '"' {
        Some(p)
    } else if s[p] == '\\' && p + 1 < s.len() {
        quote_close(s, p + 2)
    } else {
        quote_close(s, p + 1)
    }
}

/// After an optional type tag `:name` or `:name(name)` at `p`, with its layout.
pub open spec fn annot_end(s: Seq<char>, p: int) -> Option<int> {
    if 0 <= p < s.len() && s[p] == ':' {
        match ws(s, p + 1) {
            None => None,
            Some(a) => match ws(s, ident_stop(s, a)) {
                None => None,
                Some(c) => if c < s.len() && s[c] == '(' {
                    match ws(s, c + 1) {
                        None => None,
                        Some(d) => match ws(s, ident_stop(s, d)) {
                            None => None,
                            Some(f) => if f < s.len() && s[f] == ')' {
                                ws(s, f + 1)
                            } else {
                                None
                            },
                        },
                    }
                } else {
                    Some(c)
                },
            },
        }
    } else {
        Some(p)
    }
}

/// After the separator `,` that follows an array item ending at `x`, with layout.
pub open spec fn item_sep(s: Seq<char>, x: int) -> Option<int> {
    match ws(s, x) {
        Some(q) => if 0 <= q < s.len() && s[q] == ',' {
            ws(s, q + 1)
        } else {
            None
        },
        None => None,
    }
}

/// After the `}` that closes an array whose last item ends at `x`; one
/// trailing comma is allowed.
pub open spec fn array_close(s: Seq<char>, x: int) -> Option<int> {
    match ws(s, x) {
        Some(q) => if 0 <= q < s.len() && s[q] == '}' {
            Some(q + 1)
        } else if 0 <= q < s.len() && s[q] == ',' {
            match ws(s, q + 1) {
                Some(r) => if 0 <= r < s.len() && s[r] == '}' {
                    Some(r + 1)
                } else {
                    None
                },
                None => None,
            }
        } else {
            None
        },
        None => None,
    }
}

/// After the `}` at the first token from `x`.
pub open spec fn brace_close(s: Seq<char>, x: int) -> Option<int> {
    match ws(s, x) {
        Some(q) => if 0 <= q < s.len() && s[q] == '}' {
            Some(q + 1)
        } else {
            None
        },
        None => None,
    }
}

/// After the key `k` written at `a`, bare or quoted.
pub open spec fn key_end(s: Seq<char>, a: int, k: Seq<char>) -> Option<int> {
    if 0 <= a < s.len() && s[a] == '"' {
        match quote_close(s, a + 1) {
            Some(c) => if k == s.subrange(a + 1, c) {
                Some(c + 1)
            } else {
                None
            },
            None => None,
        }
    } else if 0 <= a < s.len() && is_key_start(s[a]) {
        if k == s.subrange(a, ident_stop(s, a)) {
            Some(ident_stop(s, a))
        } else {
            None
        }
    } else {
        None
    }
}

/// After the integer leaf `t` at `q`: `-`? and the longest run of digits.
pub open spec fn integer_end(s: Seq<char>, q: int, t: Seq<char>) -> Option<int> {
    let start = if 0 <= q < s.len() && s[q] == '-' {
        q + 1
    } else {
        q
    };
    let end = digit_stop(s, start);
    if 0 <= q < s.len() && end > start && t == s.subrange(q, end) {
        Some(end)
    } else {
        None
    }
}

/// After the quoted leaf whose contents are `t`, at `q`.
pub open spec fn text_end(s: Seq<char>, q: int, t: Seq<char>) -> Option<int> {
    if 0 <= q < s.len() && s[q] == '"' {
        match quote_close(s, q + 1) {
            Some(c) => if t == s.subrange(q + 1, c) {
                Some(c + 1)
            } else {
                None
            },
            None => None,
        }
    } else {
        None
    }
}

/// After the resource at `p` that spells `n`, its type tag included.
pub open spec fn node_at(s: Seq<char>, p: int, n: Node) -> Option<int>
    decreases n,
{
    match annot_end(s, p) {
        None => None,
        Some(q) => match n {
            Node::Integer(t) => integer_end(s, q, t@),
            Node::Text(t) => text_end(s, q, t@),
            Node::Array(v) => if 0 <= q < s.len() && s[q] == '{' {
                if v@.len() == 0 {
                    brace_close(s, q + 1)
                } else {
                    match items_end(s, q + 1, v@) {
                        Some(x) => array_close(s, x),
                        None => None,
                    }
                }
            } else {
                None
            },
            Node::Table(e) => if 0 <= q < s.len() && s[q] == '{' {
                match entries_end(s, q + 1, e@) {
                    Some(x) => brace_close(s, x),
                    None => None,
                }
            } else {
                None
            },
        },
    }
}

/// End of the last of the items `v` (non-empty), the first one after the
/// layout at `p`, each next one after a comma.
pub open spec fn items_end(s: Seq<char>, p: int, v: Seq<Node>) -> Option<int>
    decreases v,
{
    if v.len() == 0 {
        None
    } else {
        let start = if v.len() == 1 {
            ws(s, p)
        } else {
            match items_end(s, p, v.drop_last()) {
                Some(x) => item_sep(s, x),
                None => None,
            }
        };
        match start {
            Some(a) => node_at(s, a, v.last()),
            None => None,
        }
    }
}

/// Position after the entries `e` read from `p`: each is layout, a key,
/// layout, its resource, layout and an optional comma.
pub open spec fn entries_end(s: Seq<char>, p: int, e: Seq<Entry>) -> Option<int>
    decreases e,
{
    if e.len() == 0 {
        Some(p)
    } else {
        match entries_end(s, p, e.drop_last()) {
            Some(x) => match ws(s, x) {
                Some(a) => match key_end(s, a, e.last().key@) {
                    Some(b) => match ws(s, b) {
                        Some(r) => match node_at(s, r, e.last().value) {
                            Some(v) => match ws(s, v) {
                                Some(y) => if 0 <= y < s.len() && s[y] == ',' {
                                    Some(y + 1)
                                } else {
                                    Some(y)
                                },
                                None => None,
                            },
                            None => None,
                        },
                        None => None,
                    },
                    None => None,
                },
                None => None,
            },
            None => None,
        }
    }
}

/// `text` is a bundle whose root resource is `root`: layout, a name, the
/// resource, and nothing after it but layout.
pub open spec fn bundle_text(text: Seq<char>, root: Node) -> bool {
    match ws(text, 0) {
        Some(p) => ident_stop(text, p) > p && match ws(text, ident_stop(text, p)) {
            Some(q) => match node_at(text, q, root) {
                Some(e) => ws(text, e) == Some(text.len() as int),
                None => false,
            },
            None => false,
        },
        None => false,
    }
}

/// After the body of an array whose `{` ends just before `p`.
pub open spec fn array_end(s: Seq<char>, p: int, v: Seq<Node>) -> Option<int> {
    if v.len() == 0 {
        brace_close(s, p)
    } else {
        match items_end(s, p, v) {
            Some(x) => array_close(s, x),
            None => None,
        }
    }
}

/// After the body of a table whose `{` ends just before `p`.
pub open spec fn table_end(s: Seq<char>, p: int, t: Seq<Entry>) -> Option<int> {
    match entries_end(s, p, t) {
        Some(x) => brace_close(s, x),
        None => None,
    }
}

/// One entry read after the position `o`, as in [`entries_end`].
pub open spec fn entry_step(s: Seq<char>, o: Option<int>, en: Entry) -> Option<int> {
    match o {
        Some(x) => match ws(s, x) {
            Some(a) => match key_end(s, a, en.key@) {
                Some(b) => match ws(s, b) {
                    Some(r) => match node_at(s, r, en.value) {
                        Some(v) => match ws(s, v) {
                            Some(y) => if 0 <= y < s.len() && s[y] == ',' {
                                Some(y + 1)
                            } else {
                                Some(y)
                            },
                            None => None,
                        },
                        None => None,
                    },
                    None => None,
                },
                None => None,
            },
            None => None,
        },
        None => None,
    }
}

/// Where item `k` of an array body starts, given the end of the items before it.
pub open spec fn item_start(s: Seq<char>, p: int, k: int, before: Option<int>) -> Option<int> {
    if k == 0 {
        ws(s, p)
    } else {
        match before {
            Some(x) => item_sep(s, x),
            None => None,
        }
    }
}

pub proof fn lemma_items_unfold(s: Seq<char>, p: int, v: Seq<Node>, k: int)
    requires
        0 <= k < v.len(),
    ensures
        items_end(s, p, v.subrange(0, k + 1)) == match item_start(
            s,
            p,
            k,
            items_end(s, p, v.subrange(0, k)),
        ) {
            Some(a) => node_at(s, a, v[k]),
            None => None,
        },
{
    assert(v.subrange(0, k + 1).drop_last() =~= v.subrange(0, k));
}

pub proof fn lemma_entries_unfold(s: Seq<char>, p: int, t: Seq<Entry>, k: int)
    requires
        0 <= k < t.len(),
    ensures
        entries_end(s, p, t.subrange(0, k + 1)) == entry_step(
            s,
            entries_end(s, p, t.subrange(0, k)),
            t[k],
        ),
{
    assert(t.subrange(0, k + 1).drop_last() =~= t.subrange(0, k));
}

pub proof fn lemma_items_prefix(s: Seq<char>, p: int, v: Seq<Node>, k: int)
    requires
        items_end(s, p, v) is Some,
        1 <= k <= v.len(),
    ensures
        items_end(s, p, v.subrange(0, k)) is Some,
    decreases v.len(),
{
    if k == v.len() {
        assert(v.subrange(0, k) =~= v);
    } else {
        lemma_items_prefix(s, p, v.drop_last(), k);
        assert(v.drop_last().subrange(0, k) =~= v.subrange(0, k));
    }
}

pub proof fn lemma_entries_prefix(s: Seq<char>, p: int, t: Seq<Entry>, k: int)
    requires
        entries_end(s, p, t) is Some,
        0 <= k <= t.len(),
    ensures
        entries_end(s, p, t.subrange(0, k)) is Some,
    decreases t.len(),
{
    if k == t.len() {
        assert(t.subrange(0, k) =~= t);
    } else {
        lemma_entries_prefix(s, p, t.drop_last(), k);
        assert(t.drop_last().subrange(0, k) =~= t.subrange(0, k));
    }
}

/// Nothing is spelled at a position where the text holds `c`, when `c`
/// starts no resource.
pub proof fn lemma_no_node_at(s: Seq<char>, q: int, n: Node)
    requires
        0 <= q <= s.len(),
        q == s.len() || (s[q] != ':' && s[q] != '"' && s[q] != '{' && s[q] != '-'
            && !is_digit_char(s[q])),
    ensures
        node_at(s, q, n) is None,
{
}

} // verus!
