//! The remote repositories the corpus is built from, the Zed revision they are
//! pinned to, and where their clones live in the cache.

use vstd::prelude::*;

use crate::index::opt_str_view;
use crate::paths::{join_of, path_join};
use crate::text::{
    ascii_lower_seq, chars_are, chars_of, contains_chars, debug_str, quoted, string_of, trim,
    trim_chars,
};

verus! {

/// Zed commit the symbol index and the `zed-gpui` clone track by default.
/// `GPUI_MCP_ZED_REV` overrides it (a full SHA, or `HEAD`/`main`/`master` to
/// follow the default branch).
pub const ZED_PINNED_REV: &'static str = "d9ad6aff67e47de43abb270d22de75dd950f1b48";

/// One repository that `sync` clones.
#[derive(Clone, Debug)]
pub struct Remote {
    pub id: &'static str,
    pub title: &'static str,
    pub git: &'static str,
    /// Sparse paths relative to the repository root; empty for a full clone.
    pub sparse: Vec<&'static str>,
    /// The commit `sync` checks out instead of the default branch, if any.
    pub rev: Option<&'static str>,
}

/// The views of the sparse paths of a remote.
pub open spec fn sparse_views(s: Seq<&'static str>) -> Seq<Seq<char>> {
    s.map_values(|p: &'static str| p@)
}

/// The remotes, in the order `sync` visits them.
pub fn remotes() -> (r: Vec<Remote>)
    ensures
        r@.len() == 5,
        r@[0].id@ == "book"@,
        r@[0].title@ == "GPUI Book (MatinAniss)"@,
        r@[0].git@ == "https://github.com/MatinAniss/gpui-book.git"@,
        r@[0].sparse@.len() == 0,
        r@[0].rev.is_none(),
        r@[1].id@ == "tutorial"@,
        r@[1].title@ == "gpui-tutorial (hedge-ops)"@,
        r@[1].git@ == "https://github.com/hedge-ops/gpui-tutorial.git"@,
        r@[1].sparse@.len() == 0,
        r@[1].rev.is_none(),
        r@[2].id@ == "gpui-component"@,
        r@[2].title@ == "gpui-component (Longbridge)"@,
        r@[2].git@ == "https://github.com/longbridge/gpui-component.git"@,
        r@[2].sparse@.len() == 0,
        r@[2].rev.is_none(),
        r@[3].id@ == "zed-gpui"@,
        r@[3].title@ == "Zed crates/gpui (README + examples)"@,
        r@[3].git@ == "https://github.com/zed-industries/zed.git"@,
        sparse_views(r@[3].sparse@) == seq!["crates/gpui"@],
        r@[3].rev == Some(ZED_PINNED_REV),
        r@[4].id@ == "awesome"@,
        r@[4].title@ == "awesome-gpui"@,
        r@[4].git@ == "https://github.com/zed-industries/awesome-gpui.git"@,
        r@[4].sparse@.len() == 0,
        r@[4].rev.is_none(),
{
    let mut r: Vec<Remote> = Vec::new();
    r.push(Remote {
        id: "book",
        title: "GPUI Book (MatinAniss)",
        git: "https://github.com/MatinAniss/gpui-book.git",
        sparse: Vec::new(),
        rev: None,
    });
    r.push(Remote {
        id: "tutorial",
        title: "gpui-tutorial (hedge-ops)",
        git: "https://github.com/hedge-ops/gpui-tutorial.git",
        sparse: Vec::new(),
        rev: None,
    });
    r.push(Remote {
        id: "gpui-component",
        title: "gpui-component (Longbridge)",
        git: "https://github.com/longbridge/gpui-component.git",
        sparse: Vec::new(),
        rev: None,
    });
    let mut zed_sparse: Vec<&'static str> = Vec::new();
    zed_sparse.push("crates/gpui");
    proof {
        assert(sparse_views(zed_sparse@) =~= seq!["crates/gpui"@]);
    }
    r.push(Remote {
        id: "zed-gpui",
        title: "Zed crates/gpui (README + examples)",
        git: "https://github.com/zed-industries/zed.git",
        sparse: zed_sparse,
        rev: Some(ZED_PINNED_REV),
    });
    r.push(Remote {
        id: "awesome",
        title: "awesome-gpui",
        git: "https://github.com/zed-industries/awesome-gpui.git",
        sparse: Vec::new(),
        rev: None,
    });
    r
}

/// The word names the default branch (`head`, `main` or `master`, ASCII case
/// ignored).
pub open spec fn names_default_branch(v: Seq<char>) -> bool {
    let l = ascii_lower_seq(v);
    l == "head"@ || l == "main"@ || l == "master"@
}

/// The Zed revision to pin to, given the value of `GPUI_MCP_ZED_REV`; `None`
/// means follow the default branch.
pub open spec fn zed_rev_for(env: Option<Seq<char>>) -> Option<Seq<char>> {
    match env {
        None => Some(ZED_PINNED_REV@),
        Some(v) => if trim(v).len() == 0 {
            Some(ZED_PINNED_REV@)
        } else if names_default_branch(v) {
            None
        } else {
            Some(trim(v))
        },
    }
}

/// The view of an optional string.
pub open spec fn opt_string_view(o: Option<String>) -> Option<Seq<char>> {
    match o {
        Some(s) => Some(s@),
        None => None,
    }
}

/// Pin for `zed-gpui` given the value of `GPUI_MCP_ZED_REV`: unset or blank
/// keeps the built-in pin, `HEAD`/`main`/`master` (any ASCII case) follows
/// the default branch, anything else is the revision, trimmed.
pub fn resolve_zed_rev(env: Option<&str>) -> (r: Option<String>)
    ensures
        opt_string_view(r) == zed_rev_for(opt_str_view(env)),
{
    match env {
        None => Some(ZED_PINNED_REV.to_string()),
        Some(v) => {
            let t = trim_chars(&chars_of(v));
            if t.len() == 0 {
                return Some(ZED_PINNED_REV.to_string());
            }
            let l = crate::text::ascii_lower_chars(&chars_of(v));
            if chars_are(&l, "head") || chars_are(&l, "main") || chars_are(&l, "master") {
                None
            } else {
                Some(string_of(&t))
            }
        },
    }
}

/// The commit `sync` checks out for a remote: for `zed-gpui` the pin chosen
/// by `GPUI_MCP_ZED_REV` (whose value is `zed_env`), for the others the
/// remote's own `rev`.
pub fn remote_checkout_rev(remote: &Remote, zed_env: Option<&str>) -> (r: Option<String>)
    ensures
        remote.id@ == "zed-gpui"@ ==> opt_string_view(r) == zed_rev_for(opt_str_view(zed_env)),
        remote.id@ != "zed-gpui"@ ==> opt_string_view(r) == opt_str_view(remote.rev),
{
    if crate::text::str_is(remote.id, "zed-gpui") {
        resolve_zed_rev(zed_env)
    } else {
        match remote.rev {
            Some(rev) => Some(rev.to_string()),
            None => None,
        }
    }
}

/// Why no cache directory could be chosen.
#[derive(Clone, Debug, PartialEq, Eq, Structural)]
pub enum CacheDirError {
    /// `GPUI_MCP_CACHE` is set to the empty string.
    EmptyOverride,
    /// None of `GPUI_MCP_CACHE`, `XDG_CACHE_HOME`, `HOME` is usable.
    NoHome,
}

impl CacheDirError {
    /// The message the server reports.
    pub fn message(&self) -> (r: String)
        ensures
            *self == CacheDirError::EmptyOverride ==> r@ == "GPUI_MCP_CACHE is empty"@,
            *self == CacheDirError::NoHome ==> r@
                == "set GPUI_MCP_CACHE or HOME (refusing world-writable /tmp as a cache)"@,
    {
        match self {
            CacheDirError::EmptyOverride => "GPUI_MCP_CACHE is empty".to_string(),
            CacheDirError::NoHome => "set GPUI_MCP_CACHE or HOME (refusing world-writable /tmp as a cache)".to_string(),
        }
    }
}

/// The name of the cache directory under a base directory.
pub open spec fn app_dir_name() -> Seq<char> {
    "mcp-server-gpui-docs"@
}

/// An environment value that is set and not empty.
pub open spec fn usable(v: Option<Seq<char>>) -> bool {
    v is Some && v->0.len() > 0
}

/// The cache directory chosen from the values of `GPUI_MCP_CACHE`,
/// `XDG_CACHE_HOME` and `HOME`, in that order of preference; one of
/// `GPUI_MCP_CACHE` and `HOME` (or `XDG_CACHE_HOME`) is required.
pub open spec fn cache_dir_for(
    over: Option<Seq<char>>,
    xdg: Option<Seq<char>>,
    home: Option<Seq<char>>,
) -> Result<Seq<char>, CacheDirError> {
    match over {
        Some(p) => if p.len() == 0 {
            Err(CacheDirError::EmptyOverride)
        } else {
            Ok(p)
        },
        None => if usable(xdg) {
            Ok(join_of(xdg->0, app_dir_name()))
        } else if usable(home) {
            Ok(join_of(join_of(home->0, ".cache"@), app_dir_name()))
        } else {
            Err(CacheDirError::NoHome)
        },
    }
}

/// The view of a result of strings.
pub open spec fn res_view<E>(r: Result<String, E>) -> Result<Seq<char>, E> {
    match r {
        Ok(s) => Ok(s@),
        Err(e) => Err(e),
    }
}

/// Chooses the cache directory from the environment values (each `None`
/// when the variable is unset). A set `GPUI_MCP_CACHE` wins and must not be
/// empty; then `$XDG_CACHE_HOME/mcp-server-gpui-docs`, then
/// `$HOME/.cache/mcp-server-gpui-docs`, skipping empty values. Without any of
/// them there is no cache directory: a shared temporary directory is never
/// used.
pub fn cache_dir_from(over: Option<&str>, xdg: Option<&str>, home: Option<&str>) -> (r: Result<String, CacheDirError>)
    ensures
        res_view(r) == cache_dir_for(opt_str_view(over), opt_str_view(xdg), opt_str_view(home)),
{
    if let Some(p) = over {
        if p.is_empty() {
            return Err(CacheDirError::EmptyOverride);
        }
        return Ok(p.to_string());
    }
    if let Some(x) = xdg {
        if !x.is_empty() {
            return Ok(path_join(x, "mcp-server-gpui-docs"));
        }
    }
    if let Some(h) = home {
        if !h.is_empty() {
            let c = path_join(h, ".cache");
            return Ok(path_join(c.as_str(), "mcp-server-gpui-docs"));
        }
    }
    Err(CacheDirError::NoHome)
}

/// A source id that can name a directory under the cache: not empty, not
/// starting with `-`, and without `..`, `/` or `\`.
pub open spec fn safe_source_id(id: Seq<char>) -> bool {
    &&& id.len() > 0
    &&& id[0] != '-'
    &&& !crate::text::has_infix(id, ".."@)
    &&& !id.contains('/')
    &&& !id.contains('\\')
}

/// Whether `id` is a safe source id (see `safe_source_id`).
pub fn is_safe_source_id(id: &str) -> (r: bool)
    ensures
        r == safe_source_id(id@),
{
    let v = chars_of(id);
    if v.len() == 0 || v[0] == '-' {
        return false;
    }
    if contains_chars(&v, &chars_of("..")) {
        return false;
    }
    let mut i: usize = 0;
    while i < v.len()
        invariant
            i <= v.len(),
            v@ == id@,
            forall|k: int| 0 <= k < i ==> v@[k] != '/' && v@[k] != '\\',
        decreases v.len() - i,
    {
        if v[i] == '/' || v[i] == '\\' {
            proof {
                assert(v@[i as int] == '/' ==> id@.contains('/'));
                assert(v@[i as int] == '\\' ==> id@.contains('\\'));
            }
            return false;
        }
        i += 1;
    }
    true
}

/// A source id that was refused.
#[derive(Clone, Debug)]
pub struct InvalidSourceId {
    pub id: String,
}

impl InvalidSourceId {
    /// The message the server reports: `invalid source id "<id>"`.
    pub fn message(&self) -> (r: String)
        ensures
            r@ == "invalid source id "@ + debug_str(self.id@),
    {
        let mut out = chars_of("invalid source id ");
        crate::text::push_str_chars(&mut out, quoted(self.id.as_str()).as_str());
        string_of(&out)
    }
}

/// Where the clone of source `id` lives: `<cache>/src/<id>`, for a safe id.
pub fn repo_dir(cache: &str, id: &str) -> (r: Result<String, InvalidSourceId>)
    ensures
        safe_source_id(id@) ==> r is Ok && r->Ok_0@ == join_of(join_of(cache@, "src"@), id@),
        !safe_source_id(id@) ==> r is Err && r->Err_0.id@ == id@,
{
    if !is_safe_source_id(id) {
        return Err(InvalidSourceId { id: id.to_string() });
    }
    let src = path_join(cache, "src");
    Ok(path_join(src.as_str(), id))
}

/// Ids that are empty, start with `-`, or hold `..`, `/` or `\` never name a
/// clone directory, so no source can reach outside `<cache>/src`.
pub proof fn law_traversal_ids_rejected(id: Seq<char>)
    requires
        id.len() == 0 || id[0] == '-' || crate::text::has_infix(id, ".."@) || id.contains('/') || id.contains('\\'),
    ensures
        !safe_source_id(id),
{
}

/// Without `GPUI_MCP_ZED_REV`, or with it blank, the Zed checkout is pinned
/// to the built-in revision; `HEAD`, `main` or `master` in any ASCII case
/// unpin it.
pub proof fn law_zed_pin_default(v: Seq<char>)
    ensures
        zed_rev_for(None) == Some(ZED_PINNED_REV@),
        trim(v).len() == 0 ==> zed_rev_for(Some(v)) == Some(ZED_PINNED_REV@),
        trim(v).len() > 0 && names_default_branch(v) ==> zed_rev_for(Some(v)) is None,
{
}

/// There is no cache directory without `GPUI_MCP_CACHE`, `XDG_CACHE_HOME`
/// or `HOME`: no shared temporary directory is ever chosen, and an
/// explicitly empty `GPUI_MCP_CACHE` is refused.
pub proof fn law_no_cache_without_home(xdg: Option<Seq<char>>, home: Option<Seq<char>>)
    ensures
        !usable(xdg) && !usable(home) ==> cache_dir_for(None, xdg, home) == Err::<Seq<char>, CacheDirError>(
            CacheDirError::NoHome,
        ),
        cache_dir_for(Some(Seq::<char>::empty()), xdg, home) == Err::<Seq<char>, CacheDirError>(
            CacheDirError::EmptyOverride,
        ),
{
}

} // verus!
