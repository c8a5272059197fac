//! The pieces of the library index's queries that depend on user input: the full-text match
//! expression, the sort order, the `LIKE` pattern, and the provider filter.
use vstd::prelude::*;
use crate::text::{trim, trimmed, chars_of, string_of, extend_all, split_ws, split_whitespace, is_blank};
use crate::romanize::{concat_map, lemma_concat_map_push};
use crate::lyrics::same_str;

verus! {

/// An album of the index: its tracks rolled up by album and provider.
#[derive(Debug, Clone)]
pub struct AlbumRecord {
    pub provider: String,
    pub album: String,
    pub album_artist: Option<String>,
    pub year: Option<u32>,
    pub artwork_url: Option<String>,
    pub track_count: u32,
    pub duration_ms: u64,
}

/// An artist of the index: its tracks rolled up by artist and provider.
#[derive(Debug, Clone)]
pub struct ArtistRecord {
    pub provider: String,
    pub artist: String,
    pub album_count: u32,
    pub track_count: u32,
}

/// One search token as a quoted FTS5 prefix term, its double quotes doubled.
pub open spec fn fts_term(token: Seq<char>) -> Seq<char> {
    seq!['"'] + concat_map(token, |c: char| if c == '"' {
        seq!['"', '"']
    } else {
        seq![c]
    }) + seq!['"', '*']
}

/// Some terms separated by single spaces.
pub open spec fn join_spaced(ts: Seq<Seq<char>>) -> Seq<char>
    decreases ts.len(),
{
    if ts.len() == 0 {
        seq![]
    } else if ts.len() == 1 {
        ts[0]
    } else {
        join_spaced(ts.drop_last()) + seq![' '] + ts.last()
    }
}

/// The FTS5 match expression of a search: every whitespace-separated token as a quoted prefix
/// term, space-separated.
pub open spec fn fts_spec(query: Seq<char>) -> Seq<char> {
    join_spaced(split_ws(query).map_values(|t: Seq<char>| fts_term(t)))
}

fn fts_term_exec(token: &Vec<char>) -> (r: Vec<char>)
    ensures
        r@ == fts_term(token@),
{
    let ghost f = |c: char| if c == '"' {
        seq!['"', '"']
    } else {
        seq![c]
    };
    let mut out: Vec<char> = vec!['"'];
    let mut i: usize = 0;
    while i < token.len()
        invariant
            i <= token@.len(),
            f == (|c: char| if c == '"' {
                seq!['"', '"']
            } else {
                seq![c]
            }),
            out@ == seq!['"'] + concat_map(token@.take(i as int), f),
        decreases token@.len() - i,
    {
        let c = token[i];
        proof {
            assert(token@.take(i + 1) =~= token@.take(i as int).push(c));
            lemma_concat_map_push(token@.take(i as int), c, f);
        }
        if c == '"' {
            out.push('"');
            out.push('"');
        } else {
            out.push(c);
        }
        assert(out@ =~= seq!['"'] + concat_map(token@.take(i + 1), f));
        i = i + 1;
    }
    assert(token@.take(token@.len() as int) =~= token@);
    out.push('"');
    out.push('*');
    out
}

/// Escapes a search into an FTS5 match expression: every whitespace-separated token becomes a
/// quoted prefix term, so characters like `-`, `*` or `"` never act as FTS5 syntax.
pub fn fts_match_expression(query: &str) -> (r: String)
    ensures
        r@ == fts_spec(query@),
{
    let tokens = split_whitespace(&chars_of(query));
    let ghost ts = tokens@.map_values(|w: Vec<char>| w@).map_values(|t: Seq<char>| fts_term(t));
    let mut out: Vec<char> = Vec::new();
    let mut i: usize = 0;
    assert(ts.take(0) =~= Seq::<Seq<char>>::empty());
    while i < tokens.len()
        invariant
            i <= tokens@.len(),
            ts == tokens@.map_values(|w: Vec<char>| w@).map_values(|t: Seq<char>| fts_term(t)),
            out@ == join_spaced(ts.take(i as int)),
        decreases tokens@.len() - i,
    {
        let term = fts_term_exec(&tokens[i]);
        assert(ts[i as int] == term@);
        assert(ts.take(i + 1).drop_last() =~= ts.take(i as int));
        assert(ts.take(i + 1).last() == term@);
        if i > 0 {
            out.push(' ');
        }
        extend_all(&mut out, &term);
        proof {
            if i == 0 {
                assert(out@ =~= ts.take(1)[0]);
            } else {
                assert(out@ =~= join_spaced(ts.take(i as int)) + seq![' '] + term@);
            }
        }
        i = i + 1;
    }
    assert(ts.take(tokens@.len() as int) =~= ts);
    string_of(&out)
}

/// The `ORDER BY` clause a sort key stands for; an unknown key sorts by title.
pub open spec fn order_spec(sort: Seq<char>) -> Seq<char> {
    if sort == "artist"@ {
        "t.artist COLLATE NOCASE ASC, t.album COLLATE NOCASE ASC, t.track_number ASC"@
    } else if sort == "album"@ {
        "t.album COLLATE NOCASE ASC, t.disc_number ASC, t.track_number ASC"@
    } else if sort == "duration"@ {
        "t.duration_ms DESC"@
    } else if sort == "format"@ {
        "t.format COLLATE NOCASE ASC, t.title COLLATE NOCASE ASC"@
    } else if sort == "added"@ {
        "t.date_added DESC"@
    } else {
        "t.title COLLATE NOCASE ASC"@
    }
}

/// The track list's `ORDER BY` clause for a sort key (title when none is given). The key is
/// matched against a whitelist, so the clause can be put into the query text safely.
pub fn order_clause(sort: Option<&str>) -> (r: &'static str)
    ensures
        r@ == order_spec(
            match sort {
                Some(s) => s@,
                None => "title"@,
            },
        ),
{
    let key = match sort {
        Some(s) => s,
        None => "title",
    };
    if same_str(key, "artist") {
        "t.artist COLLATE NOCASE ASC, t.album COLLATE NOCASE ASC, t.track_number ASC"
    } else if same_str(key, "album") {
        "t.album COLLATE NOCASE ASC, t.disc_number ASC, t.track_number ASC"
    } else if same_str(key, "duration") {
        "t.duration_ms DESC"
    } else if same_str(key, "format") {
        "t.format COLLATE NOCASE ASC, t.title COLLATE NOCASE ASC"
    } else if same_str(key, "added") {
        "t.date_added DESC"
    } else {
        "t.title COLLATE NOCASE ASC"
    }
}

/// One character of a `LIKE` pattern, with `\\`, `%` and `_` escaped by a backslash.
pub open spec fn like_char(c: char) -> Seq<char> {
    if c == '\\' || c == '%' || c == '_' {
        seq!['\\', c]
    } else {
        seq![c]
    }
}

/// The `LIKE` pattern matching a search anywhere (escape character `\\`).
pub open spec fn like_spec(query: Seq<char>) -> Seq<char> {
    seq!['%'] + concat_map(query, |c: char| like_char(c)) + seq!['%']
}

/// The `LIKE` pattern (escape character `\\`) that matches the search text anywhere, with its
/// wildcard characters taken literally.
pub fn like_pattern(query: &str) -> (r: String)
    ensures
        r@ == like_spec(query@),
{
    let cs = chars_of(query);
    let ghost f = |c: char| like_char(c);
    let mut out: Vec<char> = vec!['%'];
    let mut i: usize = 0;
    while i < cs.len()
        invariant
            i <= cs@.len(),
            f == (|c: char| like_char(c)),
            out@ == seq!['%'] + concat_map(cs@.take(i as int), f),
        decreases cs@.len() - i,
    {
        let c = cs[i];
        proof {
            assert(cs@.take(i + 1) =~= cs@.take(i as int).push(c));
            lemma_concat_map_push(cs@.take(i as int), c, f);
        }
        if c == '\\' || c == '%' || c == '_' {
            out.push('\\');
        }
        out.push(c);
        assert(out@ =~= seq!['%'] + concat_map(cs@.take(i + 1), f));
        i = i + 1;
    }
    assert(cs@.take(cs@.len() as int) =~= cs@);
    out.push('%');
    string_of(&out)
}

/// The provider a listing is filtered to: none for no provider or `all`.
pub fn provider_filter(provider: Option<&str>) -> (r: Option<&str>)
    ensures
        match provider {
            Some(p) => if p@ == "all"@ {
                r is None
            } else {
                r == Some(p)
            },
            None => r is None,
        },
{
    match provider {
        Some(p) => if same_str(p, "all") {
            None
        } else {
            Some(p)
        },
        None => None,
    }
}

/// The search text of a listing: trimmed, none when blank.
pub fn search_text(query: Option<&str>) -> (r: Option<String>)
    ensures
        match query {
            Some(q) => if is_blank(q@) {
                r is None
            } else {
                r matches Some(t) && t@ == trim(q@)
            },
            None => r is None,
        },
{
    match query {
        Some(q) => {
            let t = trimmed(&chars_of(q));
            proof {
                crate::text::lemma_trim_empty_iff_blank(q@);
            }
            if t.len() == 0 {
                None
            } else {
                Some(string_of(&t))
            }
        },
        None => None,
    }
}


proof fn lemma_sort_keys_distinct()
    ensures
        "artist"@ != "album"@, "artist"@ != "duration"@, "artist"@ != "format"@,
        "artist"@ != "added"@, "artist"@ != "title"@, "album"@ != "duration"@,
        "album"@ != "format"@, "album"@ != "added"@, "album"@ != "title"@,
        "duration"@ != "format"@, "duration"@ != "added"@, "duration"@ != "title"@,
        "format"@ != "added"@, "format"@ != "title"@, "added"@ != "title"@,
{
    reveal_strlit("artist");
    reveal_strlit("album");
    reveal_strlit("duration");
    reveal_strlit("format");
    reveal_strlit("added");
    reveal_strlit("title");
    assert("artist"@[0] != "format"@[0]);
    assert("album"@[1] != "added"@[1]);
    assert("album"@[0] != "title"@[0]);
    assert("added"@[0] != "title"@[0]);
}

/// The key a sort starts from: the word the caller names as a sort key is the column of the
/// track table that the `ORDER BY` clause compares first. Artist sorts start at `t.artist`,
/// album sorts at `t.album`, duration at `t.duration_ms`, format at `t.format`, date added at
/// `t.date_added`; any other key, `title` among them, at `t.title`. Only duration and date added
/// sort descending (longest, newest first).
pub proof fn lemma_order_leads_with_its_column(key: Seq<char>)
    ensures
        key == "artist"@ ==> order_spec(key).take(9) == "t.artist "@,
        key == "album"@ ==> order_spec(key).take(8) == "t.album "@,
        key == "duration"@ ==> order_spec(key).take(14) == "t.duration_ms "@,
        key == "format"@ ==> order_spec(key).take(9) == "t.format "@,
        key == "added"@ ==> order_spec(key).take(13) == "t.date_added "@,
        key != "artist"@ && key != "album"@ && key != "duration"@ && key != "format"@ && key
            != "added"@ ==> order_spec(key).take(8) == "t.title "@,
        order_spec(key).len() >= 14,
        (key == "duration"@ || key == "added"@) <==> order_spec(key).skip(order_spec(key).len() - 4)
            == "DESC"@,
{
    lemma_sort_keys_distinct();
    reveal_strlit("DESC");
    reveal_strlit("t.artist ");
    reveal_strlit("t.album ");
    reveal_strlit("t.duration_ms ");
    reveal_strlit("t.format ");
    reveal_strlit("t.date_added ");
    reveal_strlit("t.title ");
    reveal_strlit("t.artist COLLATE NOCASE ASC, t.album COLLATE NOCASE ASC, t.track_number ASC");
    reveal_strlit("t.album COLLATE NOCASE ASC, t.disc_number ASC, t.track_number ASC");
    reveal_strlit("t.duration_ms DESC");
    reveal_strlit("t.format COLLATE NOCASE ASC, t.title COLLATE NOCASE ASC");
    reveal_strlit("t.date_added DESC");
    reveal_strlit("t.title COLLATE NOCASE ASC");
    let o = order_spec(key);
    if key == "duration"@ || key == "added"@ {
        assert(o.skip(o.len() - 4) =~= "DESC"@);
    } else {
        assert(o.skip(o.len() - 4) != "DESC"@) by {
            assert(o.skip(o.len() - 4)[0] != "DESC"@[0]);
        }
    }
    if key == "artist"@ {
        assert(order_spec(key).take(9) =~= "t.artist "@);
    } else if key == "album"@ {
        assert(order_spec(key).take(8) =~= "t.album "@);
    } else if key == "duration"@ {
        assert(order_spec(key).take(14) =~= "t.duration_ms "@);
    } else if key == "format"@ {
        assert(order_spec(key).take(9) =~= "t.format "@);
    } else if key == "added"@ {
        assert(order_spec(key).take(13) =~= "t.date_added "@);
    } else {
        assert(order_spec(key).take(8) =~= "t.title "@);
    }
}

/// Two different sort keys among `title`, `artist`, `album`, `duration`, `format` and `added`
/// never give the same order.
pub proof fn lemma_known_orders_differ(a: Seq<char>, b: Seq<char>)
    requires
        a == "title"@ || a == "artist"@ || a == "album"@ || a == "duration"@ || a == "format"@ || a
            == "added"@,
        b == "title"@ || b == "artist"@ || b == "album"@ || b == "duration"@ || b == "format"@ || b
            == "added"@,
        a != b,
    ensures
        order_spec(a) != order_spec(b),
{
    lemma_sort_keys_distinct();
    lemma_order_leads_with_its_column(a);
    lemma_order_leads_with_its_column(b);
    reveal_strlit("t.artist ");
    reveal_strlit("t.album ");
    reveal_strlit("t.duration_ms ");
    reveal_strlit("t.format ");
    reveal_strlit("t.date_added ");
    reveal_strlit("t.title ");
    let (x, y) = (order_spec(a), order_spec(b));
    assert(x.take(8)[2] == x[2] && x.take(9)[2] == x[2] && x.take(13)[2] == x[2] && x.take(14)[2]
        == x[2]);
    assert(x.take(8)[3] == x[3] && x.take(9)[3] == x[3] && x.take(13)[3] == x[3] && x.take(14)[3]
        == x[3]);
    assert(y.take(8)[2] == y[2] && y.take(9)[2] == y[2] && y.take(13)[2] == y[2] && y.take(14)[2]
        == y[2]);
    assert(y.take(8)[3] == y[3] && y.take(9)[3] == y[3] && y.take(13)[3] == y[3] && y.take(14)[3]
        == y[3]);
}

} // verus!
