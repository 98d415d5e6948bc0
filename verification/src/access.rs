//! Which browser origins may call the server, and which file the desktop host serves for a
//! path of the player web app.
use crate::text::{str_equal, trim, trim_spec};
use vstd::prelude::*;

verus! {

/// The origins a development setup always allows.
pub open spec fn development_origin(origin: Seq<char>) -> bool {
    origin == "http://localhost:1420"@ || origin == "http://localhost:5173"@ || origin
        == "http://localhost:5174"@ || origin == "http://tauri.localhost"@ || origin
        == "https://tauri.localhost"@ || origin == "tauri://localhost"@
}

/// The comma-separated fields of `s`, in order.
pub open spec fn fields(s: Seq<char>) -> Seq<Seq<char>>
    decreases s.len(),
{
    if s.len() == 0 {
        seq![Seq::empty()]
    } else {
        let rest = fields(s.drop_last());
        if s.last() == ',' {
            rest.push(Seq::empty())
        } else {
            rest.update(rest.len() - 1, rest.last().push(s.last()))
        }
    }
}

/// `origin` is one of the comma-separated entries of `list`, surrounding space aside.
pub open spec fn listed(list: Seq<char>, origin: Seq<char>) -> bool {
    exists|k: int| 0 <= k < fields(list).len() && trim_spec(#[trigger] fields(list)[k]) == origin
}

/// What the allow-list says of an origin: allowed when configured; otherwise refused in
/// production; otherwise allowed when it is a development origin; otherwise undecided,
/// which means allowed only for plain `http` to a private or loopback IPv4 address.
pub open spec fn origin_verdict_spec(origin: Seq<char>, configured: Option<Seq<char>>, production: bool) -> Option<bool> {
    if configured.is_some() && listed(configured.unwrap(), origin) {
        Some(true)
    } else if production {
        Some(false)
    } else if development_origin(origin) {
        Some(true)
    } else {
        None
    }
}

proof fn lemma_fields_nonempty(s: Seq<char>)
    ensures
        fields(s).len() >= 1,
    decreases s.len(),
{
    if s.len() > 0 {
        lemma_fields_nonempty(s.drop_last());
    }
}

/// The comma-separated fields of `s`.
fn split_fields(s: &str) -> (v: Vec<String>)
    ensures
        v.deep_view() == fields(s@),
{
    let n = s.unicode_len();
    let mut v: Vec<String> = Vec::new();
    let mut current = String::new();
    let mut i: usize = 0;
    proof {
        assert(s@.subrange(0, 0) =~= Seq::<char>::empty());
    }
    while i < n
        invariant
            n == s@.len(),
            i <= n,
            v.deep_view().push(current@) == fields(s@.subrange(0, i as int)),
        decreases n - i,
    {
        let c = s.get_char(i);
        let ghost before = v.deep_view().push(current@);
        proof {
            assert(s@.subrange(0, i + 1).drop_last() =~= s@.subrange(0, i as int));
            assert(s@.subrange(0, i + 1).last() == c);
            lemma_fields_nonempty(s@.subrange(0, i as int));
        }
        if c == ',' {
            let ghost cv = current@;
            let done = current;
            v.push(done);
            current = String::new();
            assert(v.deep_view().push(current@) =~= before.push(Seq::empty()));
        } else {
            let ghost cv = current@;
            crate::text::push_char(&mut current, c);
            assert(v.deep_view().push(current@) =~= before.update(before.len() - 1, cv.push(c)));
        }
        i = i + 1;
    }
    assert(s@.subrange(0, n as int) =~= s@);
    v.push(current);
    v
}

/// Whether `origin` is an entry of the comma-separated `list`, surrounding space aside.
pub fn is_listed(list: &str, origin: &str) -> (r: bool)
    ensures
        r == listed(list@, origin@),
{
    let entries = split_fields(list);
    let mut k: usize = 0;
    while k < entries.len()
        invariant
            k <= entries.len(),
            entries.deep_view() == fields(list@),
            forall|j: int| 0 <= j < k ==> trim_spec(#[trigger] fields(list@)[j]) != origin@,
        decreases entries.len() - k,
    {
        let t = trim(entries[k].as_str());
        assert(entries.deep_view()[k as int] == entries@[k as int]@);
        if str_equal(t.as_str(), origin) {
            return true;
        }
        k = k + 1;
    }
    false
}

/// Decides what can be decided of an origin without reading its address (see
/// [`origin_verdict_spec`]); `configured` is the configured allow-list, if any.
pub fn origin_verdict(origin: &str, configured: Option<&str>, production: bool) -> (r: Option<bool>)
    ensures
        r == origin_verdict_spec(origin@, match configured {
            Some(c) => Some(c@),
            None => None,
        }, production),
{
    let configured_match = match configured {
        Some(list) => is_listed(list, origin),
        None => false,
    };
    if configured_match {
        return Some(true);
    }
    if production {
        return Some(false);
    }
    if str_equal(origin, "http://localhost:1420") || str_equal(origin, "http://localhost:5173")
        || str_equal(origin, "http://localhost:5174") || str_equal(origin, "http://tauri.localhost")
        || str_equal(origin, "https://tauri.localhost") || str_equal(origin, "tauri://localhost") {
        return Some(true);
    }
    None
}

/// `s` without its leading `/` characters.
pub open spec fn without_leading_slashes(s: Seq<char>) -> Seq<char>
    decreases s.len(),
{
    if s.len() > 0 && s[0] == '/' {
        without_leading_slashes(s.drop_first())
    } else {
        s
    }
}

/// The file the player web app needs for a request path: none for the API and the health
/// check; `index.html` for the root; otherwise the path, and, for a path without a dot (an
/// app route), `index.html` when no such file exists.
pub open spec fn asset_plan(path: Seq<char>) -> Option<(Seq<char>, bool)> {
    let requested = without_leading_slashes(path);
    if (requested.len() >= 4 && requested.subrange(0, 4) == "api/"@) || requested == "health"@ {
        None
    } else if requested.len() == 0 {
        Some(("index.html"@, false))
    } else {
        Some((requested, !requested.contains('.')))
    }
}

/// What to serve for a request path of the player web app (see [`asset_plan`]): the file to
/// look up, and whether `index.html` stands in when it is missing.
pub fn player_asset_plan(path: &str) -> (r: Option<(String, bool)>)
    ensures
        match r {
            Some(p) => asset_plan(path@) == Some((p.0@, p.1)),
            None => asset_plan(path@).is_none(),
        },
{
    let n = path.unicode_len();
    let mut i: usize = 0;
    assert(path@.subrange(0, n as int) =~= path@);
    while i < n && path.get_char(i) == '/'
        invariant
            n == path@.len(),
            i <= n,
            without_leading_slashes(path@.subrange(i as int, n as int)) == without_leading_slashes(path@),
        decreases n - i,
    {
        proof {
            assert(path@.subrange(i as int, n as int).drop_first() =~= path@.subrange(i + 1, n as int));
        }
        i = i + 1;
    }
    let requested = path.substring_char(i, n);
    proof {
        assert(requested@ == path@.subrange(i as int, n as int));
        reveal_strlit("api/");
        reveal_strlit("index.html");
        reveal_strlit("health");
    }
    let m = requested.unicode_len();
    if m >= 4 && str_equal(requested.substring_char(0, 4), "api/") {
        return None;
    }
    if str_equal(requested, "health") {
        return None;
    }
    if m == 0 {
        return Some((String::from_str("index.html"), false));
    }
    let mut dotted = false;
    let mut k: usize = 0;
    while k < m
        invariant
            m == requested@.len(),
            k <= m,
            dotted == exists|j: int| 0 <= j < k && requested@[j] == '.',
        decreases m - k,
    {
        if requested.get_char(k) == '.' {
            dotted = true;
        }
        k = k + 1;
    }
    proof {
        if dotted {
            let j = choose|j: int| 0 <= j < m && requested@[j] == '.';
            assert(requested@.contains('.'));
        }
    }
    Some((requested.to_owned(), !dotted))
}

} // verus!
