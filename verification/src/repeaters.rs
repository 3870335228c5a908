//! The repeater store's query side that is plain text: escaping free
//! text for an FTS5 `MATCH`, the filters a search takes, and the tally
//! an import reports. The SQLite store itself sits with the program.
use vstd::prelude::*;

use crate::text::{char_is_whitespace, is_white_space, push_char, push_str, str_chars};

verus! {

/// Filters for a distance search.
#[derive(Debug, Clone, Default)]
pub struct NearFilter {
    /// Empty means "any band". Matched against the `band` column verbatim.
    pub bands: Vec<String>,
    /// Empty means "any mode". Compared case-insensitively.
    pub modes: Vec<String>,
    pub limit: Option<usize>,
}

/// Filters for a full-text search.
#[derive(Debug, Clone, Default)]
pub struct SearchFilter {
    /// Empty means "any band". Matched against the `band` column verbatim.
    pub bands: Vec<String>,
    /// Empty means "any mode". Compared case-insensitively.
    pub modes: Vec<String>,
    pub limit: Option<usize>,
}

/// What an import did: rows written and CSV lines skipped.
#[derive(Debug, Default, Clone, Copy)]
pub struct ImportStats {
    pub inserted: usize,
    pub skipped: usize,
}

/// An empty CSV cell stands for a missing value.
pub fn opt_str(s: String) -> (r: Option<String>)
    ensures
        s@.len() == 0 ==> r is None,
        s@.len() > 0 ==> r == Some(s),
{
    if s.as_str().unicode_len() == 0 {
        None
    } else {
        Some(s)
    }
}

// -------- query text --------

/// `n` SQL placeholders joined by commas (`?,?,?`).
pub open spec fn placeholders(n: nat) -> Seq<char>
    decreases n,
{
    if n == 0 {
        seq![]
    } else if n == 1 {
        seq!['?']
    } else {
        placeholders((n - 1) as nat) + seq![',', '?']
    }
}

/// The `WHERE` additions of a band / mode filter over `n_bands` bands and
/// `n_modes` modes, on columns qualified by `prefix`; an empty list adds
/// nothing. Modes compare case-insensitively.
pub open spec fn spec_filter_clause(prefix: Seq<char>, n_bands: nat, n_modes: nat) -> Seq<char> {
    (if n_bands > 0 {
        " AND "@ + prefix + "band IN ("@ + placeholders(n_bands) + ")"@
    } else {
        seq![]
    }) + (if n_modes > 0 {
        " AND LOWER("@ + prefix + "mode) IN ("@ + placeholders(n_modes) + ")"@
    } else {
        seq![]
    })
}

/// Append `n` placeholders.
fn push_placeholders(out: &mut String, n: usize)
    ensures
        final(out)@ == old(out)@ + placeholders(n as nat),
{
    let ghost start = out@;
    let mut i: usize = 0;
    while i < n
        invariant
            i <= n,
            out@ == start + placeholders(i as nat),
        decreases n - i,
    {
        if i > 0 {
            push_char(out, ',');
        }
        push_char(out, '?');
        i = i + 1;
        assert(out@ =~= start + placeholders(i as nat));
    }
}

/// The `WHERE` additions of a band / mode filter, with a `?` for each
/// band and each mode, to be bound in that order.
pub fn filter_clause(prefix: &str, n_bands: usize, n_modes: usize) -> (r: String)
    ensures
        r@ == spec_filter_clause(prefix@, n_bands as nat, n_modes as nat),
{
    let mut out = String::new();
    if n_bands > 0 {
        push_str(&mut out, " AND ");
        push_str(&mut out, prefix);
        push_str(&mut out, "band IN (");
        push_placeholders(&mut out, n_bands);
        push_str(&mut out, ")");
    }
    let ghost mid = out@;
    if n_modes > 0 {
        push_str(&mut out, " AND LOWER(");
        push_str(&mut out, prefix);
        push_str(&mut out, "mode) IN (");
        push_placeholders(&mut out, n_modes);
        push_str(&mut out, ")");
    }
    assert(out@ =~= spec_filter_clause(prefix@, n_bands as nat, n_modes as nat));
    out
}

// -------- free-text query escaping --------

/// The words of `s` after the pending word `cur`: maximal runs of
/// non-whitespace characters, in order (`str::split_whitespace`).
pub open spec fn words_from(s: Seq<char>, cur: Seq<char>) -> Seq<Seq<char>>
    decreases s.len(),
{
    if s.len() == 0 {
        if cur.len() > 0 {
            seq![cur]
        } else {
            seq![]
        }
    } else if is_white_space(s[0]) {
        (if cur.len() > 0 {
            seq![cur]
        } else {
            Seq::<Seq<char>>::empty()
        }) + words_from(s.drop_first(), seq![])
    } else {
        words_from(s.drop_first(), cur.push(s[0]))
    }
}

/// The whitespace-separated words of `s`.
pub open spec fn words(s: Seq<char>) -> Seq<Seq<char>> {
    words_from(s, seq![])
}

/// `t` with every `"` doubled.
pub open spec fn double_quotes(t: Seq<char>) -> Seq<char>
    decreases t.len(),
{
    if t.len() == 0 {
        seq![]
    } else {
        double_quotes(t.drop_last()) + (if t.last() == '"' {
            seq!['"', '"']
        } else {
            seq![t.last()]
        })
    }
}

/// One word as an FTS5 phrase: quoted with inner quotes doubled; a
/// trailing `*` after a non-empty prefix stays outside the quotes as the
/// phrase-prefix marker.
pub open spec fn fts_phrase(w: Seq<char>) -> Seq<char> {
    if w.len() > 1 && w.last() == '*' {
        seq!['"'] + double_quotes(w.drop_last()) + seq!['"', '*']
    } else {
        seq!['"'] + double_quotes(w) + seq!['"']
    }
}

/// Texts joined by single spaces.
pub open spec fn joined(ws: Seq<Seq<char>>) -> Seq<char>
    decreases ws.len(),
{
    if ws.len() == 0 {
        seq![]
    } else if ws.len() == 1 {
        ws[0]
    } else {
        joined(ws.drop_last()) + seq![' '] + ws.last()
    }
}

/// The escaped form of a free-text query.
pub open spec fn spec_escape_fts_query(q: Seq<char>) -> Seq<char> {
    joined(words(q).map_values(|w: Seq<char>| fts_phrase(w)))
}

proof fn lemma_joined_push(ws: Seq<Seq<char>>, w: Seq<char>)
    ensures
        joined(ws.push(w)) == joined(ws) + (if ws.len() > 0 {
            seq![' ']
        } else {
            Seq::<char>::empty()
        }) + w,
{
    assert(ws.push(w).drop_last() =~= ws);
    if ws.len() == 0 {
        assert(joined(ws.push(w)) == w);
        assert(joined(ws) + Seq::<char>::empty() + w =~= w);
    }
}

/// Append `t` with every `"` doubled.
fn push_doubled(out: &mut String, t: &Vec<char>, end: usize)
    requires
        end <= t@.len(),
    ensures
        final(out)@ == old(out)@ + double_quotes(t@.take(end as int)),
{
    let ghost start = out@;
    let mut i: usize = 0;
    assert(t@.take(0) =~= Seq::<char>::empty());
    assert(start + double_quotes(t@.take(0)) =~= start);
    while i < end
        invariant
            end <= t@.len(),
            i <= end,
            out@ == start + double_quotes(t@.take(i as int)),
        decreases end - i,
    {
        let c = t[i];
        assert(t@.take(i + 1).drop_last() =~= t@.take(i as int));
        if c == '"' {
            push_char(out, '"');
            push_char(out, '"');
            assert(out@ =~= start + double_quotes(t@.take(i + 1)));
        } else {
            push_char(out, c);
            assert(out@ =~= start + double_quotes(t@.take(i + 1)));
        }
        i = i + 1;
    }
}

/// Append one word as an FTS5 phrase.
fn push_phrase(out: &mut String, w: &Vec<char>)
    requires
        w@.len() > 0,
    ensures
        final(out)@ == old(out)@ + fts_phrase(w@),
{
    let n = w.len();
    let ghost start = out@;
    push_char(out, '"');
    if n > 1 && w[n - 1] == '*' {
        push_doubled(out, w, n - 1);
        push_char(out, '"');
        push_char(out, '*');
        assert(w@.take(n - 1) =~= w@.drop_last());
        assert(out@ =~= start + fts_phrase(w@));
    } else {
        push_doubled(out, w, n);
        push_char(out, '"');
        assert(w@.take(n as int) =~= w@);
        assert(out@ =~= start + fts_phrase(w@));
    }
}

/// Escape a free-text query for FTS5: split on whitespace, quote each
/// word as a phrase (doubling inner `"`), join with single spaces
/// (FTS5's implicit AND). A trailing `*` after a non-empty prefix stays
/// a phrase-prefix marker (`SK6*` becomes `"SK6"*`); every other FTS5
/// operator character is taken literally.
pub fn escape_fts_query(query: &str) -> (r: String)
    ensures
        r@ == spec_escape_fts_query(query@),
{
    let q = str_chars(query);
    let mut out = String::new();
    let mut cur: Vec<char> = Vec::new();
    let ghost mut done: Seq<Seq<char>> = seq![];
    let ghost f = |w: Seq<char>| fts_phrase(w);
    let mut any = false;
    let mut i: usize = 0;
    assert(q@.skip(0) =~= q@);
    assert(Seq::<Seq<char>>::empty() + words_from(q@, seq![]) =~= words(q@));
    while i < q.len()
        invariant
            i <= q@.len(),
            q@ == query@,
            any == (done.len() > 0),
            done + words_from(q@.skip(i as int), cur@) == words(q@),
            out@ == joined(done.map_values(f)),
            f == (|w: Seq<char>| fts_phrase(w)),
        decreases q@.len() - i,
    {
        let c = q[i];
        assert(q@.skip(i as int)[0] == c);
        assert(q@.skip(i as int).drop_first() =~= q@.skip(i + 1));
        if char_is_whitespace(c) {
            if cur.len() > 0 {
                proof {
                    lemma_joined_push(done.map_values(f), fts_phrase(cur@));
                    assert(done.push(cur@).map_values(f) =~= done.map_values(f).push(
                        fts_phrase(cur@),
                    ));
                }
                if any {
                    push_char(&mut out, ' ');
                }
                push_phrase(&mut out, &cur);
                proof {
                    assert(done + (seq![cur@] + words_from(q@.skip(i + 1), seq![])) =~= done.push(
                        cur@,
                    ) + words_from(q@.skip(i + 1), seq![]));
                    done = done.push(cur@);
                }
                any = true;
                cur = Vec::new();
            } else {
                assert(Seq::<Seq<char>>::empty() + words_from(q@.skip(i + 1), seq![])
                    =~= words_from(q@.skip(i + 1), seq![]));
            }
            assert(cur@ =~= Seq::<char>::empty());
        } else {
            cur.push(c);
        }
        i = i + 1;
    }
    assert(q@.skip(i as int) =~= Seq::<char>::empty());
    if cur.len() > 0 {
        proof {
            lemma_joined_push(done.map_values(f), fts_phrase(cur@));
            assert(done.push(cur@).map_values(f) =~= done.map_values(f).push(fts_phrase(cur@)));
            assert(done + seq![cur@] =~= done.push(cur@));
        }
        if any {
            push_char(&mut out, ' ');
        }
        push_phrase(&mut out, &cur);
        proof {
            done = done.push(cur@);
        }
    } else {
        assert(done + Seq::<Seq<char>>::empty() =~= done);
    }
    out
}

} // verus!
