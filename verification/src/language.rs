//! Content-language inference from a file's extension.
//!
//! A URI of the form `file://<path>` is reduced to its local path; the
//! extension is the part of the path's file name after its last dot,
//! provided that dot is not the name's first byte. Nothing else of the
//! URI is interpreted.

use vstd::prelude::*;

verus! {

/// Content language inferred from a file extension.
#[derive(Clone, Copy, Debug, PartialEq, Eq, Structural)]
pub enum Language {
    Text,
    Markdown,
    Json,
    Toml,
    Yaml,
}

impl Language {
    /// The language's name.
    pub open spec fn spec_name(&self) -> Seq<char> {
        match self {
            Language::Text => "text"@,
            Language::Markdown => "markdown"@,
            Language::Json => "json"@,
            Language::Toml => "toml"@,
            Language::Yaml => "yaml"@,
        }
    }

    /// The language's name.
    pub fn name(&self) -> (r: &'static str)
        ensures
            r@ == self.spec_name(),
    {
        match self {
            Language::Text => "text",
            Language::Markdown => "markdown",
            Language::Json => "json",
            Language::Toml => "toml",
            Language::Yaml => "yaml",
        }
    }
}

/// Index of the last occurrence of `b` in `s`, or `-1` if there is none.
pub open spec fn last_index_of(s: Seq<u8>, b: u8) -> int
    decreases s.len(),
{
    if s.len() == 0 {
        -1
    } else if s.last() == b {
        s.len() - 1
    } else {
        last_index_of(s.drop_last(), b)
    }
}

/// A position holding `b` with nothing equal after it is the last index.
pub proof fn lemma_last_index_of_unique(s: Seq<u8>, b: u8, j: int)
    requires
        0 <= j < s.len(),
        s[j] == b,
        forall|m: int| j < m < s.len() ==> s[m] != b,
    ensures
        last_index_of(s, b) == j,
    decreases s.len(),
{
    if j == s.len() - 1 {
    } else {
        assert(s.last() != b);
        lemma_last_index_of_unique(s.drop_last(), b, j);
    }
}

/// `b` does not occur in `s`, so there is no last index.
pub proof fn lemma_last_index_of_none(s: Seq<u8>, b: u8)
    requires
        forall|m: int| 0 <= m < s.len() ==> s[m] != b,
    ensures
        last_index_of(s, b) == -1,
    decreases s.len(),
{
    if s.len() > 0 {
        lemma_last_index_of_none(s.drop_last(), b);
    }
}

/// Whether the URI carries the local-file scheme prefix `file://`.
pub open spec fn has_file_scheme(u: Seq<u8>) -> bool {
    u.len() >= 7 && u[0] == 'f' as u8 && u[1] == 'i' as u8 && u[2] == 'l' as u8 && u[3] == 'e'
        as u8 && u[4] == ':' as u8 && u[5] == '/' as u8 && u[6] == '/' as u8
}

/// The URI's local path: the bytes after the `file://` prefix, or the URI
/// itself where no such prefix is present.
pub open spec fn local_path(u: Seq<u8>) -> Seq<u8> {
    if has_file_scheme(u) {
        u.skip(7)
    } else {
        u
    }
}

/// The file name of a path: the bytes after its last slash.
pub open spec fn file_name(p: Seq<u8>) -> Seq<u8> {
    p.subrange(last_index_of(p, '/' as u8) + 1, p.len() as int)
}

/// The extension of a file name: the bytes after its last dot, provided
/// that dot exists and is not the name's first byte.
pub open spec fn extension_of(name: Seq<u8>) -> Option<Seq<u8>> {
    let d = last_index_of(name, '.' as u8);
    if d <= 0 {
        None
    } else {
        Some(name.subrange(d + 1, name.len() as int))
    }
}

/// The language an extension names, if recognized.
pub open spec fn language_for(e: Seq<u8>) -> Option<Language> {
    if e == seq!['t' as u8, 'x' as u8, 't' as u8] {
        Some(Language::Text)
    } else if e == seq!['m' as u8, 'd' as u8] {
        Some(Language::Markdown)
    } else if e == seq!['j' as u8, 's' as u8, 'o' as u8, 'n' as u8] {
        Some(Language::Json)
    } else if e == seq!['t' as u8, 'o' as u8, 'm' as u8, 'l' as u8] {
        Some(Language::Toml)
    } else if e == seq!['y' as u8, 'a' as u8, 'm' as u8, 'l' as u8] || e == seq![
        'y' as u8,
        'm' as u8,
        'l' as u8,
    ] {
        Some(Language::Yaml)
    } else {
        None
    }
}

/// The language inferred for a URI: that of its local path's extension.
pub open spec fn spec_infer_language(u: Seq<u8>) -> Option<Language> {
    match extension_of(file_name(local_path(u))) {
        Some(e) => language_for(e),
        None => None,
    }
}

/// Index of the last occurrence of `b` in `s[from..to]`, with nothing equal
/// after it in that window.
fn rfind_byte(s: &[u8], from: usize, to: usize, b: u8) -> (r: Option<usize>)
    requires
        from <= to <= s@.len(),
    ensures
        match r {
            Some(j) => from <= j < to && s@[j as int] == b && forall|m: int|
                j < m < to ==> s@[m] != b,
            None => forall|m: int| from <= m < to ==> s@[m] != b,
        },
{
    let mut j = to;
    while j > from
        invariant
            from <= j <= to <= s@.len(),
            forall|m: int| j <= m < to ==> s@[m] != b,
        decreases j,
    {
        if s[j - 1] == b {
            return Some(j - 1);
        }
        j -= 1;
    }
    None
}

/// Whether `uri` starts with the local-file scheme `file://`.
pub fn has_scheme(uri: &[u8]) -> (r: bool)
    ensures
        r == has_file_scheme(uri@),
{
    uri.len() >= 7 && uri[0] == 'f' as u8 && uri[1] == 'i' as u8 && uri[2] == 'l' as u8 && uri[3]
        == 'e' as u8 && uri[4] == ':' as u8 && uri[5] == '/' as u8 && uri[6] == '/' as u8
}

/// The byte range `[r.0, r.1)` within `uri` holding the extension of its
/// local path, if the path has one.
pub fn extension_span(uri: &[u8]) -> (r: Option<(usize, usize)>)
    ensures
        match r {
            Some(p) => p.0 <= p.1 == uri@.len() && extension_of(file_name(local_path(uri@)))
                == Some(uri@.subrange(p.0 as int, p.1 as int)),
            None => extension_of(file_name(local_path(uri@))) == None::<Seq<u8>>,
        },
{
    let n = uri.len();
    let base: usize = if has_scheme(uri) {
        7
    } else {
        0
    };
    let ghost lp = local_path(uri@);
    proof {
        assert(lp =~= uri@.subrange(base as int, n as int));
    }
    // locate the file name: after the last slash of the local path
    let ns: usize = match rfind_byte(uri, base, n, '/' as u8) {
        Some(j) => {
            proof {
                assert(lp[j - base] == uri@[j as int]);
                assert forall|m: int| j - base < m < lp.len() implies lp[m] != '/' as u8 by {
                    assert(lp[m] == uri@[m + base]);
                }
                lemma_last_index_of_unique(lp, '/' as u8, j - base);
            }
            j + 1
        },
        None => {
            proof {
                assert forall|m: int| 0 <= m < lp.len() implies lp[m] != '/' as u8 by {
                    assert(lp[m] == uri@[m + base]);
                }
                lemma_last_index_of_none(lp, '/' as u8);
            }
            base
        },
    };
    let ghost name = file_name(lp);
    proof {
        assert(name =~= uri@.subrange(ns as int, n as int));
    }
    // locate the extension: after the last dot of the file name
    match rfind_byte(uri, ns, n, '.' as u8) {
        Some(d) => {
            proof {
                assert(name[d - ns] == uri@[d as int]);
                assert forall|m: int| d - ns < m < name.len() implies name[m] != '.' as u8 by {
                    assert(name[m] == uri@[m + ns]);
                }
                lemma_last_index_of_unique(name, '.' as u8, d - ns);
            }
            if d > ns {
                proof {
                    assert(name.subrange(d - ns + 1, name.len() as int) =~= uri@.subrange(
                        d as int + 1,
                        n as int,
                    ));
                }
                Some((d + 1, n))
            } else {
                None
            }
        },
        None => {
            proof {
                assert forall|m: int| 0 <= m < name.len() implies name[m] != '.' as u8 by {
                    assert(name[m] == uri@[m + ns]);
                }
                lemma_last_index_of_none(name, '.' as u8);
            }
            None
        },
    }
}

/// Infer the content language of the file a URI names, from its extension.
pub fn infer_language(uri: &[u8]) -> (r: Option<Language>)
    ensures
        r == spec_infer_language(uri@),
{
    match extension_span(uri) {
        None => None,
        Some((a, n)) => {
            let ghost e = uri@.subrange(a as int, n as int);
            let len = n - a;
            if len == 2 {
                if uri[a] == 'm' as u8 && uri[a + 1] == 'd' as u8 {
                    proof {
                        assert(e =~= seq!['m' as u8, 'd' as u8]);
                        assert(language_for(e) == Some(Language::Markdown));
                    }
                    Some(Language::Markdown)
                } else {
                    proof {
                        assert(e != seq!['m' as u8, 'd' as u8]);
                        assert(e.len() == 2);
                        assert(language_for(e) == None::<Language>);
                    }
                    None
                }
            } else if len == 3 {
                if uri[a] == 't' as u8 && uri[a + 1] == 'x' as u8 && uri[a + 2] == 't' as u8 {
                    proof {
                        assert(e =~= seq!['t' as u8, 'x' as u8, 't' as u8]);
                        assert(language_for(e) == Some(Language::Text));
                    }
                    Some(Language::Text)
                } else if uri[a] == 'y' as u8 && uri[a + 1] == 'm' as u8 && uri[a + 2] == 'l'
                    as u8 {
                    proof {
                        assert(e =~= seq!['y' as u8, 'm' as u8, 'l' as u8]);
                        assert(language_for(e) == Some(Language::Yaml));
                    }
                    Some(Language::Yaml)
                } else {
                    proof {
                        assert(e != seq!['t' as u8, 'x' as u8, 't' as u8]);
                        assert(e != seq!['y' as u8, 'm' as u8, 'l' as u8]);
                        assert(e.len() == 3);
                        assert(language_for(e) == None::<Language>);
                    }
                    None
                }
            } else if len == 4 {
                if uri[a] == 'j' as u8 && uri[a + 1] == 's' as u8 && uri[a + 2] == 'o' as u8
                    && uri[a + 3] == 'n' as u8 {
                    proof {
                        assert(e =~= seq!['j' as u8, 's' as u8, 'o' as u8, 'n' as u8]);
                        assert(language_for(e) == Some(Language::Json));
                    }
                    Some(Language::Json)
                } else if uri[a] == 't' as u8 && uri[a + 1] == 'o' as u8 && uri[a + 2] == 'm' as u8
                    && uri[a + 3] == 'l' as u8 {
                    proof {
                        assert(e =~= seq!['t' as u8, 'o' as u8, 'm' as u8, 'l' as u8]);
                        assert(language_for(e) == Some(Language::Toml));
                    }
                    Some(Language::Toml)
                } else if uri[a] == 'y' as u8 && uri[a + 1] == 'a' as u8 && uri[a + 2] == 'm' as u8
                    && uri[a + 3] == 'l' as u8 {
                    proof {
                        assert(e =~= seq!['y' as u8, 'a' as u8, 'm' as u8, 'l' as u8]);
                        assert(language_for(e) == Some(Language::Yaml));
                    }
                    Some(Language::Yaml)
                } else {
                    proof {
                        assert(e != seq!['j' as u8, 's' as u8, 'o' as u8, 'n' as u8]);
                        assert(e != seq!['t' as u8, 'o' as u8, 'm' as u8, 'l' as u8]);
                        assert(e != seq!['y' as u8, 'a' as u8, 'm' as u8, 'l' as u8]);
                        assert(e.len() == 4);
                        assert(language_for(e) == None::<Language>);
                    }
                    None
                }
            } else {
                proof {
                    assert(e.len() == n - a);
                    assert(language_for(e) == None::<Language>);
                }
                None
            }
        },
    }
}

} // verus!
