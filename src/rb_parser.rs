//! Grammar engine: resource-bundle text to a parse tree.
//!
//! ```text
//! bundle   := ident resource
//! resource := annot? ( integer | quoted | '{' body '}' )
//! annot    := ':' ident? ( '(' ident? ')' )?        -- a type tag such as `:intvector`, ignored
//! body     := (key resource ','?)*                   -- a table
//!           | resource (',' resource)* ','?          -- an array
//! key      := ident | quoted
//! integer  := '-'? digit+
//! quoted   := '"' (any character but '"', or '\' and any character)* '"'
//! ```
//! Whitespace, `// ...` line comments and `/* ... */` block comments may stand
//! between tokens. A body is a table when it starts with a bare identifier, or
//! with quoted text followed by neither `,` nor `}`; `{}` is an empty array. The
//! grammar is stated in [`crate::grammar`], and every tree returned here is
//! one that the text spells there.

use vstd::prelude::*;
use crate::extract::{extract, model_of};
use crate::grammar::{
    is_space, is_key_start, is_ident_char, layout_end, ws, ident_stop, digit_stop,
    quote_close, annot_end, item_sep, array_close, brace_close, key_end, integer_end, text_end,
    node_at, items_end, entries_end, bundle_text, array_end, table_end, entry_step,
    lemma_items_unfold, lemma_entries_unfold, lemma_items_prefix, lemma_entries_prefix,
    lemma_no_node_at,
};
use crate::tree::{Node, Entry, RbError};
use crate::zone_info::ZoneInfo;

verus! {

fn space(c: char) -> (r: bool)
    ensures
        r == is_space(c),
{
    c == ' ' || c == '\t' || c == '\n' || c == '\r'
}

fn key_start(c: char) -> (r: bool)
    ensures
        r == is_key_start(c),
{
    let u = c as u32;
    (u >= 65 && u <= 90) || (u >= 97 && u <= 122) || c == '_'
}

fn ident_char(c: char) -> (r: bool)
    ensures
        r == is_ident_char(c),
{
    let u = c as u32;
    key_start(c) || (u >= 48 && u <= 57) || c == '/' || c == '-' || c == '.' || c == '+'
}

/// Skips whitespace and comments; fails on an unterminated block comment.
fn skip_ws(s: &Vec<char>, pos: usize) -> (r: Result<usize, usize>)
    requires
        pos <= s.len(),
    ensures
        match r {
            Ok(p) => pos <= p <= s.len() && ws(s@, pos as int) == Some(p as int),
            Err(o) => o <= s.len() && ws(s@, pos as int) is None,
        },
{
    let n = s.len();
    let mut p = pos;
    while p < n
        invariant
            n == s.len(),
            pos <= p <= n,
            layout_end(s@, pos as int, 0) == layout_end(s@, p as int, 0),
        decreases n - p,
    {
        let c = s[p];
        if space(c) {
            p = p + 1;
        } else if c == '/' && p + 1 < n && s[p + 1] == '/' {
            let ghost before = p;
            p = p + 2;
            while p < n && s[p] != '\n'
                invariant
                    n == s.len(),
                    pos <= before < p <= n,
                    layout_end(s@, pos as int, 0) == layout_end(s@, p as int, 1),
                decreases n - p,
            {
                p = p + 1;
            }
            if p < n {
                assert(layout_end(s@, p as int, 1) == layout_end(s@, p + 1, 0));
                assert(layout_end(s@, p as int, 0) == layout_end(s@, p + 1, 0));
            }
        } else if c == '/' && p + 1 < n && s[p + 1] == '*' {
            let start = p;
            p = p + 2;
            loop
                invariant_except_break
                    layout_end(s@, pos as int, 0) == layout_end(s@, p as int, 2),
                invariant
                    n == s.len(),
                    pos <= start < p <= n,
                ensures
                    layout_end(s@, pos as int, 0) == layout_end(s@, p as int, 0),
                decreases n - p,
            {
                if n - p < 2 {
                    return Err(start);
                }
                if s[p] == '*' && s[p + 1] == '/' {
                    p = p + 2;
                    break;
                }
                p = p + 1;
            }
        } else {
            return Ok(p);
        }
    }
    Ok(p)
}

/// Reads an identifier, possibly empty.
fn ident_end(s: &Vec<char>, pos: usize) -> (r: usize)
    requires
        pos <= s.len(),
    ensures
        pos <= r <= s.len(),
        r == ident_stop(s@, pos as int),
{
    let mut p = pos;
    while p < s.len() && ident_char(s[p])
        invariant
            pos <= p <= s.len(),
            ident_stop(s@, pos as int) == ident_stop(s@, p as int),
        decreases s.len() - p,
    {
        p = p + 1;
    }
    p
}

fn copy_range(s: &Vec<char>, from: usize, to: usize) -> (r: Vec<char>)
    requires
        from <= to <= s.len(),
    ensures
        r@ == s@.subrange(from as int, to as int),
{
    let mut r: Vec<char> = Vec::new();
    let mut i = from;
    while i < to
        invariant
            from <= i <= to <= s.len(),
            r@ == s@.subrange(from as int, i as int),
        decreases to - i,
    {
        r.push(s[i]);
        i = i + 1;
        assert(r@ =~= s@.subrange(from as int, i as int));
    }
    r
}

/// Reads quoted text at `pos`; returns its contents without the quotes and
/// the position after the closing quote.
fn quoted(s: &Vec<char>, pos: usize) -> (r: Result<(Vec<char>, usize), usize>)
    requires
        pos < s.len(),
        s@[pos as int] == '"',
    ensures
        match r {
            Ok((t, e)) => pos + 2 <= e <= s.len() && t@ == s@.subrange(pos + 1, e - 1)
                && quote_close(s@, pos + 1) == Some(e - 1),
            Err(o) => o <= s.len() && quote_close(s@, pos + 1) is None,
        },
{
    let n = s.len();
    let mut p = pos + 1;
    while p < n && s[p] != '"'
        invariant
            n == s.len(),
            pos < p <= n,
            quote_close(s@, pos + 1) == quote_close(s@, p as int),
        decreases n - p,
    {
        if s[p] == '\\' && p + 1 < n {
            p = p + 2;
        } else {
            p = p + 1;
        }
    }
    if p >= n {
        return Err(pos);
    }
    Ok((copy_range(s, pos + 1, p), p + 1))
}

/// Skips an optional type tag such as `:intvector` or `:table(nofallback)`.
fn annotation(s: &Vec<char>, pos: usize) -> (r: Result<usize, usize>)
    requires
        pos <= s.len(),
    ensures
        match r {
            Ok(p) => pos <= p <= s.len() && annot_end(s@, pos as int) == Some(p as int),
            Err(o) => o <= s.len() && annot_end(s@, pos as int) is None,
        },
{
    if pos >= s.len() || s[pos] != ':' {
        return Ok(pos);
    }
    let p = skip_ws(s, pos + 1)?;
    let p = ident_end(s, p);
    let p = skip_ws(s, p)?;
    if p < s.len() && s[p] == '(' {
        let q = skip_ws(s, p + 1)?;
        let q = ident_end(s, q);
        let q = skip_ws(s, q)?;
        if q < s.len() && s[q] == ')' {
            return skip_ws(s, q + 1);
        }
        return Err(q);
    }
    Ok(p)
}

/// Whether the body whose first token stands at `pos` is a table: it starts
/// with a bare key, or with quoted text that is followed by neither `,` nor `}`.
fn starts_table(s: &Vec<char>, pos: usize) -> (r: bool)
    requires
        pos < s.len(),
    ensures
        r ==> forall|n: Node| #[trigger] node_at(s@, pos as int, n) is Some ==> item_sep(
            s@,
            node_at(s@, pos as int, n)->0,
        ) is None && array_close(s@, node_at(s@, pos as int, n)->0) is None,
        !r ==> forall|k: Seq<char>| #[trigger] key_end(s@, pos as int, k) is Some ==> match ws(
            s@,
            key_end(s@, pos as int, k)->0,
        ) {
            Some(q) => forall|n: Node| #[trigger] node_at(s@, q, n) is None,
            None => true,
        },
{
    let c = s[pos];
    if key_start(c) {
        assert forall|n: Node| node_at(s@, pos as int, n) is None by {
            lemma_no_node_at(s@, pos as int, n);
        }
        return true;
    }
    if c != '"' {
        return false;
    }
    match quoted(s, pos) {
        Ok((_, e)) => match skip_ws(s, e) {
            Ok(p) => {
                let r = p < s.len() && s[p] != ',' && s[p] != '}';
                proof {
                    if !r {
                        assert forall|n: Node| #[trigger] node_at(s@, p as int, n) is None by {
                            lemma_no_node_at(s@, p as int, n);
                        }
                    }
                }
                r
            },
            Err(_) => false,
        },
        Err(_) => false,
    }
}

/// Reads one resource at `pos`. The end is the same for every node that the
/// text at `pos` spells, and a failure means that it spells none.
fn resource(s: &Vec<char>, pos: usize) -> (r: Result<(Node, usize), usize>)
    requires
        pos <= s.len(),
    ensures
        match r {
            Ok((n, e)) => pos < e <= s.len() && node_at(s@, pos as int, n) == Some(e as int)
                && forall|m: Node| #[trigger]
                    node_at(s@, pos as int, m) is Some ==> node_at(s@, pos as int, m) == Some(
                        e as int,
                    ),
            Err(o) => o <= s.len() && forall|m: Node| #[trigger] node_at(s@, pos as int, m) is None,
        },
    decreases s.len() - pos, 1nat,
{
    let p = annotation(s, pos)?;
    if p >= s.len() {
        assert forall|m: Node| #[trigger] node_at(s@, pos as int, m) is None by {
            lemma_no_node_at(s@, p as int, m);
        }
        return Err(p);
    }
    let c = s[p];
    if c == '"' {
        let (t, e) = quoted(s, p)?;
        let ghost tv = t@;
        let n = Node::Text(t);
        assert(text_end(s@, p as int, tv) == Some(e as int));
        Ok((n, e))
    } else if c == '{' {
        match braces(s, p) {
            Ok((n, e)) => {
                assert forall|m: Node| #[trigger]
                    node_at(s@, pos as int, m) is Some implies node_at(s@, pos as int, m) == Some(
                    e as int,
                ) by {
                    match m {
                        Node::Array(v) => {
                            assert(array_end(s@, p + 1, v@) is Some);
                        },
                        Node::Table(t) => {
                            assert(table_end(s@, p + 1, t@) is Some);
                        },
                        _ => {},
                    }
                }
                Ok((n, e))
            },
            Err(o) => {
                assert forall|m: Node| #[trigger] node_at(s@, pos as int, m) is None by {
                    match m {
                        Node::Array(v) => {
                            assert(array_end(s@, p + 1, v@) is None);
                        },
                        Node::Table(t) => {
                            assert(table_end(s@, p + 1, t@) is None);
                        },
                        _ => {},
                    }
                }
                Err(o)
            },
        }
    } else {
        let mut q = p;
        if c == '-' {
            q = q + 1;
        }
        let digits = q;
        while q < s.len() && (s[q] as u32) >= 48 && (s[q] as u32) <= 57
            invariant
                p <= digits <= q <= s.len(),
                digit_stop(s@, digits as int) == digit_stop(s@, q as int),
            decreases s.len() - q,
        {
            q = q + 1;
        }
        if q == digits {
            return Err(p);
        }
        let t = copy_range(s, p, q);
        assert(integer_end(s@, p as int, t@) == Some(q as int));
        Ok((Node::Integer(t), q))
    }
}

/// Reads `{ body }` whose `{` stands at `open`.
fn braces(s: &Vec<char>, open: usize) -> (r: Result<(Node, usize), usize>)
    requires
        open < s.len(),
        s@[open as int] == '{',
    ensures
        match r {
            Ok((n, e)) => open < e <= s.len() && match n {
                Node::Array(v) => array_end(s@, open + 1, v@) == Some(e as int),
                Node::Table(t) => table_end(s@, open + 1, t@) == Some(e as int),
                _ => false,
            } && (forall|v: Seq<Node>| #[trigger]
                array_end(s@, open + 1, v) is Some ==> array_end(s@, open + 1, v) == Some(
                    e as int,
                )) && (forall|t: Seq<Entry>| #[trigger]
                table_end(s@, open + 1, t) is Some ==> table_end(s@, open + 1, t) == Some(
                    e as int,
                )),
            Err(o) => o <= s.len() && (forall|v: Seq<Node>| #[trigger]
                array_end(s@, open + 1, v) is None) && (forall|t: Seq<Entry>| #[trigger]
                table_end(s@, open + 1, t) is None),
        },
    decreases s.len() - open, 0nat,
{
    let n = s.len();
    let ghost body_start = open + 1;
    let first = match skip_ws(s, open + 1) {
        Ok(f) => f,
        Err(o) => {
            proof {
                assert forall|v: Seq<Node>| #[trigger] array_end(s@, body_start, v) is None by {
                    if v.len() > 0 && items_end(s@, body_start, v) is Some {
                        lemma_items_prefix(s@, body_start, v, 1);
                        lemma_items_unfold(s@, body_start, v, 0);
                    }
                }
                assert forall|t: Seq<Entry>| #[trigger] table_end(s@, body_start, t) is None by {
                    if t.len() > 0 && entries_end(s@, body_start, t) is Some {
                        lemma_entries_prefix(s@, body_start, t, 1);
                        lemma_entries_unfold(s@, body_start, t, 0);
                        assert(t.subrange(0, 0) =~= Seq::<Entry>::empty());
                    }
                }
            }
            return Err(o);
        },
    };
    proof {
        // what the first token of the body rules out
        assert forall|v: Seq<Node>| #[trigger] array_end(s@, body_start, v) is Some implies v.len() == 0
            || (items_end(s@, body_start, v.subrange(0, 1)) == node_at(s@, first as int, v[0])
            && node_at(s@, first as int, v[0]) is Some) by {
            if v.len() > 0 {
                lemma_items_prefix(s@, body_start, v, 1);
                lemma_items_unfold(s@, body_start, v, 0);
            }
        }
        assert forall|t: Seq<Entry>| #[trigger] table_end(s@, body_start, t) is Some implies t.len() == 0
            || (entries_end(s@, body_start, t.subrange(0, 1)) is Some && key_end(
            s@,
            first as int,
            t[0].key@,
        ) is Some && match ws(s@, key_end(s@, first as int, t[0].key@)->0) {
            Some(q) => node_at(s@, q, t[0].value) is Some,
            None => false,
        }) by {
            if t.len() > 0 {
                lemma_entries_prefix(s@, body_start, t, 1);
                lemma_entries_unfold(s@, body_start, t, 0);
                assert(t.subrange(0, 0) =~= Seq::<Entry>::empty());
            }
        }
    }
    if first >= n {
        proof {
            assert forall|v: Seq<Node>| #[trigger] array_end(s@, body_start, v) is None by {
                if v.len() > 0 {
                    lemma_no_node_at(s@, first as int, v[0]);
                }
            }
        }
        return Err(first);
    }
    if s[first] == '}' {
        let v: Vec<Node> = Vec::new();
        proof {
            assert forall|w: Seq<Node>| #[trigger] array_end(s@, body_start, w) is Some implies w.len()
                == 0 by {
                if w.len() > 0 {
                    lemma_no_node_at(s@, first as int, w[0]);
                }
            }
            assert(v@ =~= Seq::<Node>::empty());
        }
        return Ok((Node::Array(v), first + 1));
    }
    if starts_table(s, first) {
        proof {
            assert forall|v: Seq<Node>| #[trigger] array_end(s@, body_start, v) is None by {
                if v.len() > 0 && array_end(s@, body_start, v) is Some {
                    if v.len() == 1 {
                        assert(v.subrange(0, 1) =~= v);
                    } else {
                        lemma_items_prefix(s@, body_start, v, 2);
                        lemma_items_unfold(s@, body_start, v, 1);
                    }
                }
            }
        }
        let mut entries: Vec<Entry> = Vec::new();
        let mut p = open + 1;
        loop
            invariant
                n == s.len(),
                open < p <= n,
                body_start == open + 1,
                entries_end(s@, body_start, entries@) == Some(p as int),
                forall|t: Seq<Entry>| #[trigger]
                    table_end(s@, body_start, t) is Some ==> entries@.len() <= t.len() && entries_end(
                        s@,
                        body_start,
                        t.subrange(0, entries@.len() as int),
                    ) == Some(p as int),
                forall|v: Seq<Node>| #[trigger] array_end(s@, body_start, v) is None,
            decreases n - p,
        {
            let ghost k = entries@.len() as int;
            proof {
                assert forall|t: Seq<Entry>| #[trigger] table_end(s@, body_start, t) is Some && k < t.len()
                    implies entry_step(s@, Some(p as int), t[k]) is Some by {
                    lemma_entries_prefix(s@, body_start, t, k + 1);
                    lemma_entries_unfold(s@, body_start, t, k);
                }
                assert forall|t: Seq<Entry>| #[trigger] table_end(s@, body_start, t) is Some && k == t.len()
                    implies brace_close(s@, p as int) is Some by {
                    assert(t.subrange(0, k) =~= t);
                }
            }
            let a = match skip_ws(s, p) {
                Ok(a) => a,
                Err(o) => {
                    return Err(o);
                },
            };
            if a >= n {
                return Err(a);
            }
            if s[a] == '}' {
                proof {
                    assert forall|t: Seq<Entry>| #[trigger]
                        table_end(s@, body_start, t) is Some implies table_end(s@, body_start, t) == Some(
                        a + 1,
                    ) by {
                        if k < t.len() {
                            assert(entry_step(s@, Some(p as int), t[k]) is Some);
                        }
                        assert(t.subrange(0, k) =~= t);
                    }
                }
                return Ok((Node::Table(entries), a + 1));
            }
            let (key, after_key) = if s[a] == '"' {
                match quoted(s, a) {
                    Ok(x) => x,
                    Err(o) => {
                        return Err(o);
                    },
                }
            } else if key_start(s[a]) {
                let e = ident_end(s, a);
                (copy_range(s, a, e), e)
            } else {
                return Err(a);
            };
            assert(key_end(s@, a as int, key@) == Some(after_key as int));
            let q = match skip_ws(s, after_key) {
                Ok(q) => q,
                Err(o) => {
                    return Err(o);
                },
            };
            let (value, e) = match resource(s, q) {
                Ok(x) => x,
                Err(o) => {
                    return Err(o);
                },
            };
            let y = match skip_ws(s, e) {
                Ok(y) => y,
                Err(o) => {
                    return Err(o);
                },
            };
            let ghost old_entries = entries@;
            let ghost old_p = p;
            let entry = Entry { key, value };
            let ghost entry_v = entry;
            entries.push(entry);
            p = if y < n && s[y] == ',' {
                y + 1
            } else {
                y
            };
            proof {
                assert(entries@.drop_last() =~= old_entries);
                assert(entries@.last() == entry_v);
                assert forall|t: Seq<Entry>| #[trigger]
                    table_end(s@, body_start, t) is Some implies entries@.len() <= t.len() && entries_end(
                    s@,
                    body_start,
                    t.subrange(0, entries@.len() as int),
                ) == Some(p as int) by {
                    if k == t.len() {
                        assert(brace_close(s@, old_p as int) is Some);
                    }
                    lemma_entries_unfold(s@, body_start, t, k);
                    assert(entry_step(s@, Some(old_p as int), t[k]) is Some);
                }
            }
        }
    } else {
        proof {
            assert forall|t: Seq<Entry>| #[trigger] table_end(s@, body_start, t) is None by {
                if t.len() > 0 && table_end(s@, body_start, t) is Some {
                    assert(key_end(s@, first as int, t[0].key@) is Some);
                }
            }
        }
        let mut items: Vec<Node> = Vec::new();
        let mut p = first;
        let ghost mut last_end: int = 0;
        loop
            invariant
                n == s.len(),
                open < p <= n,
                body_start == open + 1,
                ws(s@, body_start) == Some(first as int),
                first < n && s@[first as int] != '}',
                items@.len() == 0 ==> p == first,
                items@.len() > 0 ==> items_end(s@, body_start, items@) == Some(last_end) && item_sep(
                    s@,
                    last_end,
                ) == Some(p as int),
                forall|v: Seq<Node>| #[trigger]
                    array_end(s@, body_start, v) is Some ==> items@.len() < v.len() && (items@.len() > 0
                        ==> items_end(s@, body_start, v.subrange(0, items@.len() as int)) == Some(
                        last_end,
                    )),
                forall|t: Seq<Entry>| #[trigger] table_end(s@, body_start, t) is None,
            decreases n - p,
        {
            let ghost k = items@.len() as int;
            proof {
                assert forall|v: Seq<Node>| #[trigger]
                    array_end(s@, body_start, v) is Some implies node_at(s@, p as int, v[k]) is Some
                    && items_end(s@, body_start, v.subrange(0, k + 1)) == node_at(s@, p as int, v[k]) by {
                    lemma_items_prefix(s@, body_start, v, k + 1);
                    lemma_items_unfold(s@, body_start, v, k);
                }
            }
            let (item, e) = match resource(s, p) {
                Ok(x) => x,
                Err(o) => {
                    return Err(o);
                },
            };
            let ghost old_items = items@;
            let ghost item_v = item;
            items.push(item);
            proof {
                assert(items@.drop_last() =~= old_items);
                assert(items@.last() == item_v);
                assert(items_end(s@, body_start, items@) == Some(e as int));
                assert forall|v: Seq<Node>| #[trigger] array_end(s@, body_start, v) is Some && k + 1
                    < v.len() implies item_sep(s@, e as int) is Some by {
                    lemma_items_prefix(s@, body_start, v, k + 2);
                    lemma_items_unfold(s@, body_start, v, k + 1);
                }
                assert forall|v: Seq<Node>| #[trigger] array_end(s@, body_start, v) is Some && k + 1
                    == v.len() implies array_close(s@, e as int) is Some by {
                    assert(v.subrange(0, k + 1) =~= v);
                }
            }
            let q = match skip_ws(s, e) {
                Ok(q) => q,
                Err(o) => {
                    return Err(o);
                },
            };
            if q >= n {
                return Err(q);
            }
            if s[q] == '}' {
                proof {
                    assert forall|v: Seq<Node>| #[trigger]
                        array_end(s@, body_start, v) is Some implies array_end(s@, body_start, v) == Some(
                        q + 1,
                    ) by {
                        assert(v.subrange(0, k + 1) =~= v);
                    }
                }
                return Ok((Node::Array(items), q + 1));
            }
            if s[q] != ',' {
                return Err(q);
            }
            let q2 = match skip_ws(s, q + 1) {
                Ok(q2) => q2,
                Err(o) => {
                    return Err(o);
                },
            };
            if q2 < n && s[q2] == '}' {
                proof {
                    assert forall|v: Seq<Node>| #[trigger]
                        array_end(s@, body_start, v) is Some implies array_end(s@, body_start, v) == Some(
                        q2 + 1,
                    ) by {
                        if k + 1 < v.len() {
                            lemma_items_prefix(s@, body_start, v, k + 2);
                            lemma_items_unfold(s@, body_start, v, k + 1);
                            lemma_no_node_at(s@, q2 as int, v[k + 1]);
                        }
                        assert(v.subrange(0, k + 1) =~= v);
                    }
                }
                return Ok((Node::Array(items), q2 + 1));
            }
            proof {
                last_end = e as int;
                assert forall|v: Seq<Node>| #[trigger] array_end(s@, body_start, v) is Some implies k + 1
                    < v.len() by {
                    if k + 1 == v.len() {
                        assert(v.subrange(0, k + 1) =~= v);
                    }
                }
            }
            p = q2;
        }
    }
}

/// The characters of `text`, in order.
pub fn chars_of(text: &str) -> (r: Vec<char>)
    ensures
        r@ == text@,
{
    let mut out: Vec<char> = Vec::new();
    for c in it: text.chars()
        invariant
            out@ == it.seq().subrange(0, it.index() as int),
    {
        out.push(c);
    }
    out
}

/// The parser of resource-bundle text.
pub struct ResourceBundleParser;

impl ResourceBundleParser {
    /// Parses a whole bundle: a name, one resource, and nothing after it but
    /// whitespace and comments. The tree returned is one that the text
    /// spells; a syntax error, carrying the character offset where parsing
    /// stopped, means that the text spells no tree at all.
    pub fn parse_tree(text: &str) -> (r: Result<Node, RbError>)
        ensures
            match r {
                Ok(root) => bundle_text(text@, root),
                Err(e) => e is Syntax && forall|t: Node| !#[trigger] bundle_text(text@, t),
            },
    {
        let s = chars_of(text);
        let fail = |o: usize| -> (e: RbError)
            ensures
                e is Syntax,
            { RbError::Syntax { offset: o } };
        let p = match skip_ws(&s, 0) {
            Ok(p) => p,
            Err(o) => return Err(fail(o)),
        };
        let q = ident_end(&s, p);
        if q == p {
            return Err(fail(p));
        }
        let r = match skip_ws(&s, q) {
            Ok(r) => r,
            Err(o) => return Err(fail(o)),
        };
        let (root, e) = match resource(&s, r) {
            Ok(x) => x,
            Err(o) => return Err(fail(o)),
        };
        let end = match skip_ws(&s, e) {
            Ok(end) => end,
            Err(o) => return Err(fail(o)),
        };
        if end != s.len() {
            return Err(fail(end));
        }
        Ok(root)
    }

    /// Parses a bundle and extracts its model.
    ///
    /// A success is the model of a tree that the text spells; a schema error
    /// means the text spells a tree that breaks the schema; a syntax error
    /// means it spells no tree.
    pub fn parse_to_zone_info(text: &str) -> (r: Result<ZoneInfo, RbError>)
        ensures
            match r {
                Ok(m) => exists|t: Node| bundle_text(text@, t) && model_of(t) == Some(m@),
                Err(RbError::Schema { .. }) => exists|t: Node|
                    bundle_text(text@, t) && model_of(t) is None,
                Err(RbError::Syntax { .. }) => forall|t: Node| !#[trigger] bundle_text(text@, t),
            },
    {
        let root = Self::parse_tree(text)?;
        extract(&root)
    }
}

} // verus!
