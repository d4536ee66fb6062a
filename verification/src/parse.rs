//! Turning the items of a parsed GPUI source file into index symbols.
//!
//! Each item of a parsed file is described as an [`ItemModel`]: its kind,
//! name, visibility, attributes (by path name) and the token text of its
//! signature (`syntax` builds these from `syn`). Which items become symbols,
//! with what signature text, doc line, deprecation and `cfg` list, and which
//! attributes count as docs, deprecations or `cfg`s, is decided here.

use vstd::prelude::*;

use crate::api_index::{ApiSymbol, SymbolKind, TraitImplRecord};
use crate::text::{
    chars_of, decimal, decimal_chars, push_chars, push_str_chars, replace_all,
    replace_all_exec, string_of, trim, trim_chars, white_space,
};

verus! {

/// An attribute, as far as the index reads it.
#[derive(Clone, Debug)]
pub struct AttrModel {
    /// The attribute's path when it is a single identifier (`doc`,
    /// `deprecated`, `cfg`, ...).
    pub name: Option<String>,
    /// The string literal of a `path = "..."` attribute (a `///` line is
    /// `doc = "..."`).
    pub value: Option<String>,
    /// The whole attribute as token text.
    pub tokens: String,
}

/// A type as far as the index reads it: a path by its last identifier, a
/// reference to another type, or anything else.
#[derive(Debug)]
pub enum TypeModel {
    Path(Option<String>),
    Reference(Box<TypeModel>),
    Other,
}

/// The last identifier of a type, looking through references.
pub open spec fn type_last_ident(t: TypeModel) -> Option<String>
    decreases t,
{
    match t {
        TypeModel::Path(last) => last,
        TypeModel::Reference(inner) => type_last_ident(*inner),
        TypeModel::Other => None,
    }
}

/// The last identifier of a type, looking through references.
pub fn last_ident(t: &TypeModel) -> (r: Option<String>)
    ensures
        r is None <==> type_last_ident(*t) is None,
        r matches Some(x) ==> x@ == type_last_ident(*t)->0@,
    decreases t,
{
    match t {
        TypeModel::Path(last) => match last {
            Some(x) => Some(x.clone()),
            None => None,
        },
        TypeModel::Reference(inner) => last_ident(inner),
        TypeModel::Other => None,
    }
}

/// The attribute's path is the single identifier `n`.
pub open spec fn attr_named(a: AttrModel, n: Seq<char>) -> bool {
    a.name matches Some(x) && x@ == n
}

/// Whether the attribute's path is the single identifier `n`.
pub fn attr_named_exec(a: &AttrModel, n: &str) -> (r: bool)
    ensures
        r == attr_named(*a, n@),
{
    match &a.name {
        Some(x) => crate::text::chars_eq(&chars_of(x.as_str()), &chars_of(n)),
        None => false,
    }
}

/// The string of a `#[doc = "..."]` attribute.
pub open spec fn doc_value(a: AttrModel) -> Option<Seq<char>> {
    if attr_named(a, "doc"@) {
        match a.value {
            Some(v) => Some(v@),
            None => None,
        }
    } else {
        None
    }
}

/// A function or method signature.
#[derive(Clone, Debug)]
pub struct FnModel {
    pub name: String,
    pub is_pub: bool,
    /// The token text of the signature.
    pub sig_tokens: String,
    pub attrs: Vec<AttrModel>,
    pub line: usize,
}

/// A top-level item of a source file.
#[derive(Debug)]
pub enum ItemModel {
    Struct { name: String, is_pub: bool, fields: usize, attrs: Vec<AttrModel>, line: usize },
    Enum { name: String, is_pub: bool, variants: usize, attrs: Vec<AttrModel>, line: usize },
    Trait { name: String, is_pub: bool, attrs: Vec<AttrModel>, line: usize, methods: Vec<FnModel> },
    Fn { f: FnModel },
    TypeAlias { name: String, is_pub: bool, attrs: Vec<AttrModel>, line: usize },
    Const { name: String, is_pub: bool, attrs: Vec<AttrModel>, line: usize },
    Macro { name: Option<String>, attrs: Vec<AttrModel>, line: usize },
    Impl {
        /// The self type.
        self_ty: TypeModel,
        /// Names of the impl's type parameters.
        type_params: Vec<String>,
        /// `Some(last segment)` for a trait impl (empty when the path has none).
        trait_ident: Option<String>,
        methods: Vec<FnModel>,
    },
    Other,
}

/// The view of an index symbol: its fields as plain values.
pub ghost struct SymbolView {
    pub kind: SymbolKind,
    pub name: Seq<char>,
    pub owner: Option<Seq<char>>,
    pub via_trait: Option<Seq<char>>,
    pub signature: Seq<char>,
    pub doc: Seq<char>,
    pub file: Seq<char>,
    pub line: usize,
    pub deprecated: bool,
    pub cfg: Seq<Seq<char>>,
    pub generated: bool,
}

/// The view of a symbol.
pub open spec fn sym_view(s: ApiSymbol) -> SymbolView {
    SymbolView {
        kind: s.kind,
        name: s.name@,
        owner: crate::paths::opt_view(s.owner),
        via_trait: crate::paths::opt_view(s.via_trait),
        signature: s.signature@,
        doc: s.doc@,
        file: s.file@,
        line: s.line,
        deprecated: s.deprecated,
        cfg: s.cfg@.map_values(|c: String| c@),
        generated: s.generated,
    }
}

/// A trait implementation as plain values.
pub open spec fn impl_view(r: TraitImplRecord) -> (Seq<char>, Seq<char>) {
    (r.trait_name@, r.for_type@)
}

// ---------------------------------------------------------------------------
// Attributes.
// ---------------------------------------------------------------------------
/// A doc string without one leading space.
pub open spec fn doc_text(s: Seq<char>) -> Seq<char> {
    if s.len() > 0 && s[0] == ' ' {
        s.drop_first()
    } else {
        s
    }
}

/// The doc lines gathered from the attributes: up to the first blank line
/// that follows some text.
pub open spec fn doc_lines(attrs: Seq<AttrModel>) -> Seq<Seq<char>>
    decreases attrs.len(),
{
    doc_lines_from(attrs, seq![])
}

/// `doc_lines`, continuing from the lines gathered so far.
pub open spec fn doc_lines_from(attrs: Seq<AttrModel>, acc: Seq<Seq<char>>) -> Seq<Seq<char>>
    decreases attrs.len(),
{
    if attrs.len() == 0 {
        acc
    } else {
        match doc_value(attrs[0]) {
            Some(s) => {
                let t = doc_text(s);
                if t.len() == 0 && acc.len() > 0 {
                    acc
                } else {
                    doc_lines_from(attrs.drop_first(), acc.push(t))
                }
            },
            None => doc_lines_from(attrs.drop_first(), acc),
        }
    }
}

/// Lines joined by single spaces.
pub open spec fn join_spaced(ls: Seq<Seq<char>>) -> Seq<char>
    decreases ls.len(),
{
    if ls.len() == 0 {
        seq![]
    } else if ls.len() == 1 {
        ls[0]
    } else {
        join_spaced(ls.drop_last()) + seq![' '] + ls.last()
    }
}

/// Whether the doc text can be cut at 400 bytes: it is shorter, or byte 400
/// falls between characters (`String::truncate` panics otherwise).
pub open spec fn doc_cuttable(attrs: Seq<AttrModel>) -> bool {
    crate::text::cuttable(join_spaced(doc_lines(attrs)), 400)
}

/// The doc of an item: its first paragraph of doc lines, joined by spaces,
/// cut to 400 bytes.
pub open spec fn first_doc_spec(attrs: Seq<AttrModel>) -> Seq<char> {
    crate::text::cut_to_bytes(join_spaced(doc_lines(attrs)), 400)
}

/// Some attribute is `#[deprecated]`.
pub open spec fn deprecated_spec(attrs: Seq<AttrModel>) -> bool {
    exists|i: int| 0 <= i < attrs.len() && attr_named(#[trigger] attrs[i], "deprecated"@)
}

/// The token texts of the `#[cfg]` attributes, in order.
pub open spec fn cfgs_spec(attrs: Seq<AttrModel>) -> Seq<Seq<char>>
    decreases attrs.len(),
{
    if attrs.len() == 0 {
        seq![]
    } else {
        let p = cfgs_spec(attrs.drop_last());
        if attr_named(attrs.last(), "cfg"@) {
            p.push(attrs.last().tokens@)
        } else {
            p
        }
    }
}

// ---------------------------------------------------------------------------
// Signatures.
// ---------------------------------------------------------------------------
/// Runs of whitespace collapsed into one space.
pub open spec fn collapse_ws(s: Seq<char>) -> Seq<char>
    decreases s.len(),
{
    if s.len() == 0 {
        seq![]
    } else {
        let p = collapse_ws(s.drop_last());
        if white_space(s.last()) {
            if s.len() >= 2 && white_space(s[s.len() - 2]) {
                p
            } else {
                p.push(' ')
            }
        } else {
            p.push(s.last())
        }
    }
}

/// The token text of a signature tidied: whitespace collapsed, no space before
/// `(`, `,`, `;`, `>` or after `<`, trimmed.
pub open spec fn norm_tokens_spec(raw: Seq<char>) -> Seq<char> {
    let c = collapse_ws(raw);
    let a = replace_all(c, " ("@, "("@);
    let b = replace_all(a, " ,"@, ","@);
    let d = replace_all(b, " ;"@, ";"@);
    let e = replace_all(d, " >"@, ">"@);
    let f = replace_all(e, "< "@, "<"@);
    trim(f)
}


/// Whitespace runs collapsed into one space.
fn collapse_ws_exec(raw: &Vec<char>) -> (r: Vec<char>)
    ensures
        r@ == collapse_ws(raw@),
{
    let mut r: Vec<char> = Vec::new();
    let mut prev_space = false;
    let mut i: usize = 0;
    while i < raw.len()
        invariant
            i <= raw@.len(),
            r@ == collapse_ws(raw@.take(i as int)),
            prev_space == (i > 0 && white_space(raw@[i - 1])),
        decreases raw@.len() - i,
    {
        let c = raw[i];
        proof {
            assert(raw@.take(i + 1).drop_last() =~= raw@.take(i as int));
            assert(raw@.take(i + 1).last() == c);
            if i >= 1 {
                assert(raw@.take(i + 1)[i - 1] == raw@[i - 1]);
            }
        }
        if crate::text::char_is_whitespace(c) {
            if !prev_space {
                r.push(' ');
                prev_space = true;
            }
        } else {
            prev_space = false;
            r.push(c);
        }
        i += 1;
    }
    assert(raw@.take(raw@.len() as int) =~= raw@);
    r
}

/// The token text of a signature, tidied.
pub fn norm_tokens(raw: &str) -> (r: String)
    ensures
        r@ == norm_tokens_spec(raw@),
{
    proof {
        reveal_strlit(" (");
        reveal_strlit(" ,");
        reveal_strlit(" ;");
        reveal_strlit(" >");
        reveal_strlit("< ");
    }
    let c = collapse_ws_exec(&chars_of(raw));
    let a = replace_all_exec(&c, &chars_of(" ("), &chars_of("("));
    let b = replace_all_exec(&a, &chars_of(" ,"), &chars_of(","));
    let d = replace_all_exec(&b, &chars_of(" ;"), &chars_of(";"));
    let e = replace_all_exec(&d, &chars_of(" >"), &chars_of(">"));
    let f = replace_all_exec(&e, &chars_of("< "), &chars_of("<"));
    string_of(&trim_chars(&f))
}

/// Whether some attribute is `#[deprecated]`.
pub fn deprecated(attrs: &Vec<AttrModel>) -> (r: bool)
    ensures
        r == deprecated_spec(attrs@),
{
    let mut i: usize = 0;
    while i < attrs.len()
        invariant
            i <= attrs@.len(),
            forall|k: int| 0 <= k < i ==> !attr_named(#[trigger] attrs@[k], "deprecated"@),
        decreases attrs@.len() - i,
    {
        if attr_named_exec(&attrs[i], "deprecated") {
            return true;
        }
        i += 1;
    }
    false
}

/// The token texts of the `#[cfg]` attributes.
pub fn cfgs(attrs: &Vec<AttrModel>) -> (r: Vec<String>)
    ensures
        r@.map_values(|c: String| c@) == cfgs_spec(attrs@),
{
    let mut r: Vec<String> = Vec::new();
    let mut i: usize = 0;
    while i < attrs.len()
        invariant
            i <= attrs@.len(),
            r@.map_values(|c: String| c@) == cfgs_spec(attrs@.take(i as int)),
        decreases attrs@.len() - i,
    {
        proof {
            assert(attrs@.take(i + 1).drop_last() =~= attrs@.take(i as int));
            assert(attrs@.take(i + 1).last() == attrs@[i as int]);
        }
        if attr_named_exec(&attrs[i], "cfg") {
            let ghost before = r@;
            let c = attrs[i].tokens.clone();
            r.push(c);
            assert(r@.map_values(|c: String| c@) =~= before.map_values(|c: String| c@).push(c@));
        }
        i += 1;
    }
    assert(attrs@.take(attrs@.len() as int) =~= attrs@);
    r
}

/// `doc_lines_from` after `k` attributes, when no stop has happened.
proof fn lemma_doc_lines_step(attrs: Seq<AttrModel>, k: int, acc: Seq<Seq<char>>)
    requires
        0 <= k < attrs.len(),
        doc_lines(attrs) == doc_lines_from(attrs.skip(k), acc),
    ensures
        attrs.skip(k)[0] == attrs[k],
        attrs.skip(k).drop_first() == attrs.skip(k + 1),
{
    assert(attrs.skip(k).drop_first() =~= attrs.skip(k + 1));
}

/// The first paragraph of doc lines, joined by spaces.
fn joined_doc(attrs: &Vec<AttrModel>) -> (d: Vec<char>)
    ensures
        d@ == join_spaced(doc_lines(attrs@)),
{
    let mut lines: Vec<Vec<char>> = Vec::new();
    let mut i: usize = 0;
    assert(attrs@.skip(0) =~= attrs@);
    assert(crate::text::views(lines@) =~= Seq::<Seq<char>>::empty());
    while i < attrs.len()
        invariant_except_break
            i <= attrs@.len(),
            doc_lines(attrs@) == doc_lines_from(attrs@.skip(i as int), crate::text::views(lines@)),
        ensures
            crate::text::views(lines@) == doc_lines(attrs@),
        decreases attrs@.len() - i,
    {
        proof {
            lemma_doc_lines_step(attrs@, i as int, crate::text::views(lines@));
        }
        let doc: Option<&String> = if attr_named_exec(&attrs[i], "doc") {
            match &attrs[i].value {
                Some(v) => Some(v),
                None => None,
            }
        } else {
            None
        };
        if let Some(s) = doc {
            let sc = chars_of(s.as_str());
            let t: Vec<char> = if sc.len() > 0 && sc[0] == ' ' {
                let mut t: Vec<char> = Vec::new();
                let mut k: usize = 1;
                while k < sc.len()
                    invariant
                        1 <= k <= sc@.len(),
                        t@ == sc@.subrange(1, k as int),
                    decreases sc@.len() - k,
                {
                    t.push(sc[k]);
                    assert(sc@.subrange(1, k + 1) =~= sc@.subrange(1, k as int).push(sc@[k as int]));
                    k += 1;
                }
                assert(t@ =~= sc@.drop_first());
                t
            } else {
                sc
            };
            if t.len() == 0 && lines.len() > 0 {
                break;
            }
            let ghost before = crate::text::views(lines@);
            lines.push(t);
            assert(crate::text::views(lines@) =~= before.push(t@));
        }
        i += 1;
    }
    // Join with single spaces.
    let mut d: Vec<char> = Vec::new();
    let mut k: usize = 0;
    let ghost dl = doc_lines(attrs@);
    assert(crate::text::views(lines@) == dl);
    assert(dl.take(0) =~= Seq::<Seq<char>>::empty());
    while k < lines.len()
        invariant
            k <= lines@.len(),
            crate::text::views(lines@) == dl,
            d@ == join_spaced(dl.take(k as int)),
        decreases lines@.len() - k,
    {
        proof {
            assert(dl.take(k + 1).drop_last() =~= dl.take(k as int));
            assert(dl.take(k + 1).last() == lines@[k as int]@);
        }
        if k > 0 {
            d.push(' ');
        }
        push_chars(&mut d, &lines[k]);
        proof {
            if k == 0 {
                assert(dl.take(1) =~= seq![dl[0]]);
                assert(d@ =~= join_spaced(dl.take(1)));
            } else {
                assert(d@ =~= join_spaced(dl.take(k as int)) + seq![' '] + dl[k as int]);
            }
        }
        k += 1;
    }
    assert(dl.take(lines@.len() as int) =~= dl);
    d
}

/// The doc of an item: its first paragraph of doc lines, joined by spaces,
/// cut to 400 bytes.
pub fn first_doc(attrs: &Vec<AttrModel>) -> (r: String)
    requires
        doc_cuttable(attrs@),
    ensures
        r@ == first_doc_spec(attrs@),
{
    let d = joined_doc(attrs);
    string_of(&crate::text::cut_at_bytes(&d, 400))
}

// ---------------------------------------------------------------------------
// Items to symbols.
// ---------------------------------------------------------------------------
/// The view of a symbol made from an item.
pub open spec fn made_symbol(
    kind: SymbolKind,
    name: Seq<char>,
    owner: Option<Seq<char>>,
    signature: Seq<char>,
    attrs: Seq<AttrModel>,
    rel: Seq<char>,
    line: usize,
) -> SymbolView {
    SymbolView {
        kind,
        name,
        owner,
        via_trait: None,
        signature,
        doc: first_doc_spec(attrs),
        file: rel,
        line,
        deprecated: deprecated_spec(attrs),
        cfg: cfgs_spec(attrs),
        generated: false,
    }
}

/// Symbols of functions; with `only_pub`, of the public ones only.
pub open spec fn fn_symbols(
    fs: Seq<FnModel>,
    kind: SymbolKind,
    owner: Option<Seq<char>>,
    rel: Seq<char>,
    only_pub: bool,
) -> Seq<SymbolView>
    decreases fs.len(),
{
    if fs.len() == 0 {
        seq![]
    } else {
        let p = fn_symbols(fs.drop_last(), kind, owner, rel, only_pub);
        let f = fs.last();
        if only_pub && !f.is_pub {
            p
        } else {
            p.push(made_symbol(kind, f.name@, owner, norm_tokens_spec(f.sig_tokens@), f.attrs@, rel, f.line))
        }
    }
}

/// Some type parameter of the impl is named `ty` (a blanket impl).
pub open spec fn generic_self(params: Seq<String>, ty: Seq<char>) -> bool {
    exists|i: int| 0 <= i < params.len() && params[i]@ == ty
}

/// The symbols an item contributes.
pub open spec fn item_symbols(item: ItemModel, rel: Seq<char>) -> Seq<SymbolView> {
    match item {
        ItemModel::Struct { name, is_pub, fields, attrs, line } => if is_pub {
            seq![made_symbol(SymbolKind::Struct, name@, None, "pub struct "@ + name@ + " /* "@ + decimal(fields as nat) + " fields */"@, attrs@, rel, line)]
        } else {
            seq![]
        },
        ItemModel::Enum { name, is_pub, variants, attrs, line } => if is_pub {
            seq![made_symbol(SymbolKind::Enum, name@, None, "pub enum "@ + name@ + " /* "@ + decimal(variants as nat) + " variants */"@, attrs@, rel, line)]
        } else {
            seq![]
        },
        ItemModel::Trait { name, is_pub, attrs, line, methods } => if is_pub {
            seq![made_symbol(SymbolKind::Trait, name@, None, "pub trait "@ + name@, attrs@, rel, line)]
                + fn_symbols(methods@, SymbolKind::TraitMethod, Some(name@), rel, false)
        } else {
            seq![]
        },
        ItemModel::Fn { f } => if f.is_pub {
            seq![made_symbol(SymbolKind::Fn, f.name@, None, norm_tokens_spec(f.sig_tokens@), f.attrs@, rel, f.line)]
        } else {
            seq![]
        },
        ItemModel::TypeAlias { name, is_pub, attrs, line } => if is_pub {
            seq![made_symbol(SymbolKind::TypeAlias, name@, None, "pub type "@ + name@, attrs@, rel, line)]
        } else {
            seq![]
        },
        ItemModel::Const { name, is_pub, attrs, line } => if is_pub {
            seq![made_symbol(SymbolKind::Const, name@, None, "pub const "@ + name@, attrs@, rel, line)]
        } else {
            seq![]
        },
        ItemModel::Macro { name, attrs, line } => match name {
            Some(id) => seq![made_symbol(SymbolKind::Macro, id@, None, "macro_rules! "@ + id@, attrs@, rel, line)],
            None => seq![],
        },
        ItemModel::Impl { self_ty, type_params, trait_ident, methods } => match type_last_ident(self_ty) {
            Some(ty) => if generic_self(type_params@, ty@) || trait_ident is Some {
                seq![]
            } else {
                fn_symbols(methods@, SymbolKind::Method, Some(ty@), rel, true)
            },
            None => seq![],
        },
        ItemModel::Other => seq![],
    }
}

/// Every symbol is from file `rel` and read from source, not generated.
pub open spec fn all_from_file(syms: Seq<SymbolView>, rel: Seq<char>) -> bool {
    forall|k: int| 0 <= k < syms.len() ==> (#[trigger] syms[k]).file == rel && !syms[k].generated
}

proof fn lemma_fn_symbols_from_file(fs: Seq<FnModel>, kind: SymbolKind, owner: Option<Seq<char>>, rel: Seq<char>, only_pub: bool)
    ensures
        all_from_file(fn_symbols(fs, kind, owner, rel, only_pub), rel),
    decreases fs.len(),
{
    if fs.len() > 0 {
        lemma_fn_symbols_from_file(fs.drop_last(), kind, owner, rel, only_pub);
    }
}

proof fn lemma_concat_from_file(a: Seq<SymbolView>, b: Seq<SymbolView>, rel: Seq<char>)
    requires
        all_from_file(a, rel),
        all_from_file(b, rel),
    ensures
        all_from_file(a + b, rel),
{
    assert forall|k: int| 0 <= k < (a + b).len() implies (#[trigger] (a + b)[k]).file == rel && !(a + b)[k].generated by {
        if k >= a.len() {
            assert((a + b)[k] == b[k - a.len()]);
        }
    }
}

/// Every symbol indexed from a file records that file and is marked as read
/// from source, not macro-generated.
pub proof fn law_symbols_record_their_file(items: Seq<ItemModel>, rel: Seq<char>)
    ensures
        all_from_file(items_symbols(items, rel), rel),
    decreases items.len(),
{
    if items.len() > 0 {
        law_symbols_record_their_file(items.drop_last(), rel);
        let it = items.last();
        match it {
            ItemModel::Trait { name, is_pub, attrs, line, methods } => {
                lemma_fn_symbols_from_file(methods@, SymbolKind::TraitMethod, Some(name@), rel, false);
                if is_pub {
                    lemma_concat_from_file(
                        seq![made_symbol(SymbolKind::Trait, name@, None, "pub trait "@ + name@, attrs@, rel, line)],
                        fn_symbols(methods@, SymbolKind::TraitMethod, Some(name@), rel, false),
                        rel,
                    );
                }
            },
            ItemModel::Impl { self_ty, type_params, trait_ident, methods } => {
                if let Some(ty) = type_last_ident(self_ty) {
                    lemma_fn_symbols_from_file(methods@, SymbolKind::Method, Some(ty@), rel, true);
                }
            },
            _ => {},
        }
        lemma_concat_from_file(items_symbols(items.drop_last(), rel), item_symbols(it, rel), rel);
    }
}

/// The kind, name, line and signature text of the symbol a public item is
/// indexed under: structs (with their field count), enums (with their
/// variant count), traits, functions (their tidied signature), type aliases
/// and consts when `pub`, macros when named.
pub open spec fn public_item_key(item: ItemModel) -> Option<(SymbolKind, Seq<char>, usize, Seq<char>)> {
    match item {
        ItemModel::Struct { name, is_pub, fields, line, .. } => if is_pub {
            Some((SymbolKind::Struct, name@, line, "pub struct "@ + name@ + " /* "@ + decimal(fields as nat) + " fields */"@))
        } else {
            None
        },
        ItemModel::Enum { name, is_pub, variants, line, .. } => if is_pub {
            Some((SymbolKind::Enum, name@, line, "pub enum "@ + name@ + " /* "@ + decimal(variants as nat) + " variants */"@))
        } else {
            None
        },
        ItemModel::Trait { name, is_pub, line, .. } => if is_pub {
            Some((SymbolKind::Trait, name@, line, "pub trait "@ + name@))
        } else {
            None
        },
        ItemModel::Fn { f } => if f.is_pub {
            Some((SymbolKind::Fn, f.name@, f.line, norm_tokens_spec(f.sig_tokens@)))
        } else {
            None
        },
        ItemModel::TypeAlias { name, is_pub, line, .. } => if is_pub {
            Some((SymbolKind::TypeAlias, name@, line, "pub type "@ + name@))
        } else {
            None
        },
        ItemModel::Const { name, is_pub, line, .. } => if is_pub {
            Some((SymbolKind::Const, name@, line, "pub const "@ + name@))
        } else {
            None
        },
        ItemModel::Macro { name, line, .. } => match name {
            Some(n) => Some((SymbolKind::Macro, n@, line, "macro_rules! "@ + n@)),
            None => None,
        },
        _ => None,
    }
}

proof fn lemma_items_symbols_include(items: Seq<ItemModel>, rel: Seq<char>, i: int, k: int)
    requires
        0 <= i < items.len(),
        0 <= k < item_symbols(items[i], rel).len(),
    ensures
        items_symbols(items, rel).contains(item_symbols(items[i], rel)[k]),
    decreases items.len(),
{
    let a = items_symbols(items.drop_last(), rel);
    let b = item_symbols(items.last(), rel);
    assert(items_symbols(items, rel) == a + b);
    if i == items.len() - 1 {
        assert((a + b)[a.len() + k] == b[k]);
    } else {
        assert(items.drop_last()[i] == items[i]);
        lemma_items_symbols_include(items.drop_last(), rel, i, k);
        let m = choose|m: int| 0 <= m < a.len() && a[m] == item_symbols(items[i], rel)[k];
        assert((a + b)[m] == a[m]);
    }
}

/// Every public item of a file (struct, enum, trait, function, type alias,
/// const, named macro) is indexed: some symbol has its kind, its name, its
/// line and its signature text, from that file, with no owner.
pub proof fn law_public_items_indexed(items: Seq<ItemModel>, rel: Seq<char>, i: int)
    requires
        0 <= i < items.len(),
        public_item_key(items[i]) is Some,
    ensures
        ({
            let key = public_item_key(items[i])->0;
            exists|k: int|
                0 <= k < items_symbols(items, rel).len() && (#[trigger] items_symbols(items, rel)[k]).kind == key.0
                    && items_symbols(items, rel)[k].name == key.1 && items_symbols(items, rel)[k].line == key.2
                    && items_symbols(items, rel)[k].signature == key.3 && items_symbols(items, rel)[k].file == rel
                    && items_symbols(items, rel)[k].owner is None
        }),
{
    let syms = item_symbols(items[i], rel);
    assert(syms.len() > 0);
    lemma_items_symbols_include(items, rel, i, 0);
    let m = choose|m: int| 0 <= m < items_symbols(items, rel).len() && items_symbols(items, rel)[m] == syms[0];
    assert(items_symbols(items, rel)[m] == syms[0]);
}

proof fn lemma_fn_symbols_owned(fs: Seq<FnModel>, kind: SymbolKind, owner: Option<Seq<char>>, rel: Seq<char>, only_pub: bool)
    ensures
        forall|k: int|
            0 <= k < fn_symbols(fs, kind, owner, rel, only_pub).len() ==> (#[trigger] fn_symbols(fs, kind, owner, rel, only_pub)[k]).owner
                == owner && fn_symbols(fs, kind, owner, rel, only_pub)[k].kind == kind,
    decreases fs.len(),
{
    if fs.len() > 0 {
        lemma_fn_symbols_owned(fs.drop_last(), kind, owner, rel, only_pub);
    }
}

/// Only public items are indexed: every symbol without an owner has the
/// kind, name, line and signature text of a public item of the file (so a
/// private struct, enum, trait, function, type alias or const, or a macro
/// without a name, gives none); every symbol with an owner is a trait method
/// or an inherent method.
pub proof fn law_unowned_symbols_are_public_items(items: Seq<ItemModel>, rel: Seq<char>)
    ensures
        ({
            let syms = items_symbols(items, rel);
            &&& forall|k: int|
                0 <= k < syms.len() && (#[trigger] syms[k]).owner is None ==> exists|i: int|
                    0 <= i < items.len() && (#[trigger] public_item_key(items[i])) == Some(
                        (syms[k].kind, syms[k].name, syms[k].line, syms[k].signature),
                    )
            &&& forall|k: int|
                0 <= k < syms.len() && (#[trigger] syms[k]).owner is Some ==> syms[k].kind == SymbolKind::TraitMethod
                    || syms[k].kind == SymbolKind::Method
        }),
    decreases items.len(),
{
    if items.len() > 0 {
        let p = items.drop_last();
        law_unowned_symbols_are_public_items(p, rel);
        let a = items_symbols(p, rel);
        let it = items.last();
        let b = item_symbols(it, rel);
        let syms = items_symbols(items, rel);
        assert(syms == a + b);
        let last = items.len() - 1;
        match it {
            ItemModel::Trait { name, is_pub, attrs, line, methods } => {
                lemma_fn_symbols_owned(methods@, SymbolKind::TraitMethod, Some(name@), rel, false);
            },
            ItemModel::Impl { self_ty, type_params, trait_ident, methods } => {
                if let Some(ty) = type_last_ident(self_ty) {
                    lemma_fn_symbols_owned(methods@, SymbolKind::Method, Some(ty@), rel, true);
                }
            },
            _ => {},
        }
        assert forall|k: int|
            0 <= k < syms.len() && (#[trigger] syms[k]).owner is None implies exists|i: int|
                0 <= i < items.len() && (#[trigger] public_item_key(items[i])) == Some(
                    (syms[k].kind, syms[k].name, syms[k].line, syms[k].signature),
                ) by {
            if k < a.len() {
                assert(syms[k] == a[k]);
                let i = choose|i: int|
                    0 <= i < p.len() && (#[trigger] public_item_key(p[i])) == Some((a[k].kind, a[k].name, a[k].line, a[k].signature));
                assert(p[i] == items[i]);
            } else {
                assert(syms[k] == b[k - a.len()]);
                assert(items[last] == it);
                match it {
                    ItemModel::Trait { name, is_pub, attrs, line, methods } => {
                        if k - a.len() > 0 {
                            assert(b[k - a.len()] == fn_symbols(methods@, SymbolKind::TraitMethod, Some(name@), rel, false)[k - a.len() - 1]);
                        }
                        assert(public_item_key(items[last]) == Some((syms[k].kind, syms[k].name, syms[k].line, syms[k].signature)));
                    },
                    ItemModel::Impl { self_ty, type_params, trait_ident, methods } => {},
                    _ => {
                        assert(public_item_key(items[last]) == Some((syms[k].kind, syms[k].name, syms[k].line, syms[k].signature)));
                    },
                }
            }
        }
        assert forall|k: int|
            0 <= k < syms.len() && (#[trigger] syms[k]).owner is Some implies syms[k].kind == SymbolKind::TraitMethod
                || syms[k].kind == SymbolKind::Method by {
            if k < a.len() {
                assert(syms[k] == a[k]);
            } else {
                assert(syms[k] == b[k - a.len()]);
                match it {
                    ItemModel::Trait { name, is_pub, attrs, line, methods } => {
                        if k - a.len() > 0 {
                            assert(b[k - a.len()] == fn_symbols(methods@, SymbolKind::TraitMethod, Some(name@), rel, false)[k - a.len() - 1]);
                        }
                    },
                    _ => {},
                }
            }
        }
    }
}

/// The trait implementations an item records.
pub open spec fn item_impls(item: ItemModel) -> Seq<(Seq<char>, Seq<char>)> {
    match item {
        ItemModel::Impl { self_ty, type_params, trait_ident, methods } => match (type_last_ident(self_ty), trait_ident) {
            (Some(ty), Some(tn)) => if !generic_self(type_params@, ty@) && tn@.len() > 0 {
                seq![(tn@, ty@)]
            } else {
                seq![]
            },
            _ => seq![],
        },
        _ => seq![],
    }
}

/// The symbols of all items, in order.
pub open spec fn items_symbols(items: Seq<ItemModel>, rel: Seq<char>) -> Seq<SymbolView>
    decreases items.len(),
{
    if items.len() == 0 {
        seq![]
    } else {
        items_symbols(items.drop_last(), rel) + item_symbols(items.last(), rel)
    }
}

/// The trait implementations of all items, in order.
pub open spec fn items_impls(items: Seq<ItemModel>) -> Seq<(Seq<char>, Seq<char>)>
    decreases items.len(),
{
    if items.len() == 0 {
        seq![]
    } else {
        items_impls(items.drop_last()) + item_impls(items.last())
    }
}

/// The docs of the functions that become symbols (with `only_pub`, the
/// public ones) can be cut at 400 bytes.
pub open spec fn fns_cuttable(fs: Seq<FnModel>, only_pub: bool) -> bool {
    forall|i: int| 0 <= i < fs.len() && (!only_pub || fs[i].is_pub) ==> doc_cuttable(#[trigger] fs[i].attrs@)
}

/// The docs of every symbol the item gives can be cut at 400 bytes (the
/// doc of an item that gives no symbol is never cut).
pub open spec fn item_cuttable(item: ItemModel) -> bool {
    match item {
        ItemModel::Struct { is_pub, attrs, .. } => is_pub ==> doc_cuttable(attrs@),
        ItemModel::Enum { is_pub, attrs, .. } => is_pub ==> doc_cuttable(attrs@),
        ItemModel::Trait { is_pub, attrs, methods, .. } => is_pub ==> doc_cuttable(attrs@) && fns_cuttable(methods@, false),
        ItemModel::Fn { f } => f.is_pub ==> doc_cuttable(f.attrs@),
        ItemModel::TypeAlias { is_pub, attrs, .. } => is_pub ==> doc_cuttable(attrs@),
        ItemModel::Const { is_pub, attrs, .. } => is_pub ==> doc_cuttable(attrs@),
        ItemModel::Macro { name, attrs, .. } => name is Some ==> doc_cuttable(attrs@),
        ItemModel::Impl { self_ty, type_params, trait_ident, methods } => match type_last_ident(self_ty) {
            Some(ty) => !generic_self(type_params@, ty@) && trait_ident is None ==> fns_cuttable(methods@, true),
            None => true,
        },
        ItemModel::Other => true,
    }
}

/// The docs of every symbol the items give can be cut at 400 bytes.
pub open spec fn items_cuttable(items: Seq<ItemModel>) -> bool {
    forall|i: int| 0 <= i < items.len() ==> item_cuttable(#[trigger] items[i])
}

/// Builds one symbol.
fn make_symbol(
    kind: SymbolKind,
    name: String,
    owner: Option<String>,
    signature: String,
    attrs: &Vec<AttrModel>,
    rel: &str,
    line: usize,
) -> (r: ApiSymbol)
    requires
        doc_cuttable(attrs@),
    ensures
        sym_view(r) == made_symbol(kind, name@, crate::paths::opt_view(owner), signature@, attrs@, rel@, line),
{
    let r = ApiSymbol {
        kind,
        name,
        owner,
        via_trait: None,
        signature,
        doc: first_doc(attrs),
        file: rel.to_owned(),
        line,
        deprecated: deprecated(attrs),
        cfg: cfgs(attrs),
        generated: false,
    };
    r
}

/// Appends the symbols of functions.
fn push_fn_symbols(
    out: &mut Vec<ApiSymbol>,
    fs: &Vec<FnModel>,
    kind: SymbolKind,
    owner: &Option<String>,
    rel: &str,
    only_pub: bool,
)
    requires
        fns_cuttable(fs@, only_pub),
    ensures
        final(out)@.map_values(|s: ApiSymbol| sym_view(s)) == old(out)@.map_values(|s: ApiSymbol| sym_view(s))
            + fn_symbols(fs@, kind, crate::paths::opt_view(*owner), rel@, only_pub),
{
    let ghost start = out@.map_values(|s: ApiSymbol| sym_view(s));
    let ghost ov = crate::paths::opt_view(*owner);
    let mut i: usize = 0;
    assert(fs@.take(0) =~= Seq::<FnModel>::empty());
    assert(start + Seq::<SymbolView>::empty() =~= start);
    while i < fs.len()
        invariant
            i <= fs@.len(),
            fns_cuttable(fs@, only_pub),
            ov == crate::paths::opt_view(*owner),
            out@.map_values(|s: ApiSymbol| sym_view(s)) == start + fn_symbols(fs@.take(i as int), kind, ov, rel@, only_pub),
        decreases fs@.len() - i,
    {
        let f = &fs[i];
        proof {
            assert(fs@.take(i + 1).drop_last() =~= fs@.take(i as int));
            assert(fs@.take(i + 1).last() == *f);
        }
        if !only_pub || f.is_pub {
            assert(doc_cuttable(fs@[i as int].attrs@));
            let ghost before = out@.map_values(|s: ApiSymbol| sym_view(s));
            let sym = make_symbol(kind, f.name.clone(), owner.clone(), norm_tokens(f.sig_tokens.as_str()), &f.attrs, rel, f.line);
            out.push(sym);
            proof {
                assert(out@.map_values(|s: ApiSymbol| sym_view(s)) =~= before.push(sym_view(sym)));
                vstd::seq_lib::lemma_concat_associative(start, fn_symbols(fs@.take(i as int), kind, ov, rel@, only_pub), seq![sym_view(sym)]);
                assert(before.push(sym_view(sym)) =~= start + fn_symbols(fs@.take(i as int), kind, ov, rel@, only_pub).push(sym_view(sym)));
            }
        }
        i += 1;
    }
    assert(fs@.take(fs@.len() as int) =~= fs@);
}


/// Whether `ty` is one of the type parameters.
fn generic_self_exec(params: &Vec<String>, ty: &String) -> (r: bool)
    ensures
        r == generic_self(params@, ty@),
{
    let t = chars_of(ty.as_str());
    let mut i: usize = 0;
    while i < params.len()
        invariant
            i <= params@.len(),
            t@ == ty@,
            forall|k: int| 0 <= k < i ==> params@[k]@ != ty@,
        decreases params@.len() - i,
    {
        if crate::text::chars_eq(&chars_of(params[i].as_str()), &t) {
            return true;
        }
        i += 1;
    }
    false
}

/// Text made of a literal, a name and another literal.
fn framed(a: &str, name: &String, b: &str) -> (r: String)
    ensures
        r@ == a@ + name@ + b@,
{
    let mut v: Vec<char> = Vec::new();
    push_str_chars(&mut v, a);
    push_str_chars(&mut v, name.as_str());
    push_str_chars(&mut v, b);
    string_of(&v)
}

/// `a`, the name, ` /* `, the number, then `tail`.
fn counted(a: &str, name: &String, n: usize, tail: &str) -> (r: String)
    ensures
        r@ == a@ + name@ + " /* "@ + decimal(n as nat) + tail@,
{
    let mut v: Vec<char> = Vec::new();
    push_str_chars(&mut v, a);
    push_str_chars(&mut v, name.as_str());
    push_str_chars(&mut v, " /* ");
    push_chars(&mut v, &decimal_chars(n as u64));
    push_str_chars(&mut v, tail);
    string_of(&v)
}

/// Appends the symbols and trait implementations of one item.
fn index_item(item: &ItemModel, rel: &str, symbols: &mut Vec<ApiSymbol>, trait_impls: &mut Vec<TraitImplRecord>)
    requires
        item_cuttable(*item),
    ensures
        final(symbols)@.map_values(|s: ApiSymbol| sym_view(s)) == old(symbols)@.map_values(|s: ApiSymbol| sym_view(s)) + item_symbols(*item, rel@),
        final(trait_impls)@.map_values(|r: TraitImplRecord| impl_view(r)) == old(trait_impls)@.map_values(|r: TraitImplRecord| impl_view(r)) + item_impls(*item),
{
    let ghost s0 = symbols@.map_values(|s: ApiSymbol| sym_view(s));
    let ghost i0 = trait_impls@.map_values(|r: TraitImplRecord| impl_view(r));
    assert(i0 + Seq::<(Seq<char>, Seq<char>)>::empty() =~= i0);
    assert(s0 + Seq::<SymbolView>::empty() =~= s0);
    match item {
        ItemModel::Struct { name, is_pub, fields, attrs, line } => {
            if *is_pub {
                let sym = make_symbol(SymbolKind::Struct, name.clone(), None, counted("pub struct ", name, *fields, " fields */"), attrs, rel, *line);
                symbols.push(sym);
                assert(symbols@.map_values(|s: ApiSymbol| sym_view(s)) =~= s0 + seq![sym_view(sym)]);
            }
        },
        ItemModel::Enum { name, is_pub, variants, attrs, line } => {
            if *is_pub {
                let sym = make_symbol(SymbolKind::Enum, name.clone(), None, counted("pub enum ", name, *variants, " variants */"), attrs, rel, *line);
                symbols.push(sym);
                assert(symbols@.map_values(|s: ApiSymbol| sym_view(s)) =~= s0 + seq![sym_view(sym)]);
            }
        },
        ItemModel::Trait { name, is_pub, attrs, line, methods } => {
            if *is_pub {
                let sym = make_symbol(SymbolKind::Trait, name.clone(), None, framed("pub trait ", name, ""), attrs, rel, *line);
                proof {
                    assert(("pub trait "@ + name@ + ""@) =~= "pub trait "@ + name@) by {
                        reveal_strlit("");
                    }
                }
                symbols.push(sym);
                let ghost s1 = symbols@.map_values(|s: ApiSymbol| sym_view(s));
                assert(s1 =~= s0 + seq![sym_view(sym)]);
                let owner: Option<String> = Some(name.clone());
                push_fn_symbols(symbols, methods, SymbolKind::TraitMethod, &owner, rel, false);
                proof {
                    vstd::seq_lib::lemma_concat_associative(s0, seq![sym_view(sym)], fn_symbols(methods@, SymbolKind::TraitMethod, Some(name@), rel@, false));
                }
            }
        },
        ItemModel::Fn { f } => {
            if f.is_pub {
                let sym = make_symbol(SymbolKind::Fn, f.name.clone(), None, norm_tokens(f.sig_tokens.as_str()), &f.attrs, rel, f.line);
                symbols.push(sym);
                assert(symbols@.map_values(|s: ApiSymbol| sym_view(s)) =~= s0 + seq![sym_view(sym)]);
            }
        },
        ItemModel::TypeAlias { name, is_pub, attrs, line } => {
            if *is_pub {
                let sym = make_symbol(SymbolKind::TypeAlias, name.clone(), None, framed("pub type ", name, ""), attrs, rel, *line);
                proof {
                    assert(("pub type "@ + name@ + ""@) =~= "pub type "@ + name@) by {
                        reveal_strlit("");
                    }
                }
                symbols.push(sym);
                assert(symbols@.map_values(|s: ApiSymbol| sym_view(s)) =~= s0 + seq![sym_view(sym)]);
            }
        },
        ItemModel::Const { name, is_pub, attrs, line } => {
            if *is_pub {
                let sym = make_symbol(SymbolKind::Const, name.clone(), None, framed("pub const ", name, ""), attrs, rel, *line);
                proof {
                    assert(("pub const "@ + name@ + ""@) =~= "pub const "@ + name@) by {
                        reveal_strlit("");
                    }
                }
                symbols.push(sym);
                assert(symbols@.map_values(|s: ApiSymbol| sym_view(s)) =~= s0 + seq![sym_view(sym)]);
            }
        },
        ItemModel::Macro { name, attrs, line } => {
            if let Some(id) = name {
                let sym = make_symbol(SymbolKind::Macro, id.clone(), None, framed("macro_rules! ", id, ""), attrs, rel, *line);
                proof {
                    assert(("macro_rules! "@ + id@ + ""@) =~= "macro_rules! "@ + id@) by {
                        reveal_strlit("");
                    }
                }
                symbols.push(sym);
                assert(symbols@.map_values(|s: ApiSymbol| sym_view(s)) =~= s0 + seq![sym_view(sym)]);
            }
        },
        ItemModel::Impl { self_ty, type_params, trait_ident, methods } => {
            if let Some(ty) = last_ident(self_ty) {
                if !generic_self_exec(type_params, &ty) {
                    match trait_ident {
                        Some(tn) => {
                            if !tn.as_str().is_empty() {
                                let rec = TraitImplRecord { trait_name: tn.clone(), for_type: ty.clone() };
                                trait_impls.push(rec);
                                assert(trait_impls@.map_values(|r: TraitImplRecord| impl_view(r)) =~= i0 + seq![impl_view(rec)]);
                            }
                        },
                        None => {
                            let owner: Option<String> = Some(ty.clone());
                            push_fn_symbols(symbols, methods, SymbolKind::Method, &owner, rel, true);
                        },
                    }
                }
            }
        },
        ItemModel::Other => {},
    }
}

/// The symbols and trait implementations of a file's items.
pub fn index_file(items: &Vec<ItemModel>, rel: &str) -> (r: (Vec<ApiSymbol>, Vec<TraitImplRecord>))
    requires
        items_cuttable(items@),
    ensures
        r.0@.map_values(|s: ApiSymbol| sym_view(s)) == items_symbols(items@, rel@),
        r.1@.map_values(|t: TraitImplRecord| impl_view(t)) == items_impls(items@),
{
    let mut symbols: Vec<ApiSymbol> = Vec::new();
    let mut trait_impls: Vec<TraitImplRecord> = Vec::new();
    let mut i: usize = 0;
    assert(items@.take(0) =~= Seq::<ItemModel>::empty());
    assert(symbols@.map_values(|s: ApiSymbol| sym_view(s)) =~= Seq::<SymbolView>::empty());
    assert(trait_impls@.map_values(|t: TraitImplRecord| impl_view(t)) =~= Seq::<(Seq<char>, Seq<char>)>::empty());
    while i < items.len()
        invariant
            i <= items@.len(),
            forall|k: int| 0 <= k < items@.len() ==> item_cuttable(#[trigger] items@[k]),
            symbols@.map_values(|s: ApiSymbol| sym_view(s)) == items_symbols(items@.take(i as int), rel@),
            trait_impls@.map_values(|t: TraitImplRecord| impl_view(t)) == items_impls(items@.take(i as int)),
        decreases items@.len() - i,
    {
        proof {
            assert(items@.take(i + 1).drop_last() =~= items@.take(i as int));
            assert(items@.take(i + 1).last() == items@[i as int]);
        }
        index_item(&items[i], rel, &mut symbols, &mut trait_impls);
        i += 1;
    }
    assert(items@.take(items@.len() as int) =~= items@);
    (symbols, trait_impls)
}


/// Whether the docs of the attributes can be cut at 400 bytes.
pub fn doc_cuttable_exec(attrs: &Vec<AttrModel>) -> (r: bool)
    ensures
        r == doc_cuttable(attrs@),
{
    let d = joined_doc(attrs);
    crate::text::cuttable_exec(&d, 400)
}

/// Whether all docs of an item can be cut at 400 bytes.
pub fn item_cuttable_exec(item: &ItemModel) -> (r: bool)
    ensures
        r == item_cuttable(*item),
{
    match item {
        ItemModel::Struct { is_pub, attrs, .. } => !*is_pub || doc_cuttable_exec(attrs),
        ItemModel::Enum { is_pub, attrs, .. } => !*is_pub || doc_cuttable_exec(attrs),
        ItemModel::Trait { is_pub, attrs, methods, .. } => !*is_pub || (doc_cuttable_exec(attrs) && fns_cuttable_exec(methods, false)),
        ItemModel::Fn { f } => !f.is_pub || doc_cuttable_exec(&f.attrs),
        ItemModel::TypeAlias { is_pub, attrs, .. } => !*is_pub || doc_cuttable_exec(attrs),
        ItemModel::Const { is_pub, attrs, .. } => !*is_pub || doc_cuttable_exec(attrs),
        ItemModel::Macro { name, attrs, .. } => name.is_none() || doc_cuttable_exec(attrs),
        ItemModel::Impl { self_ty, type_params, trait_ident, methods } => match last_ident(self_ty) {
            Some(ty) => generic_self_exec(type_params, &ty) || trait_ident.is_some() || fns_cuttable_exec(methods, true),
            None => true,
        },
        ItemModel::Other => true,
    }
}

/// Whether the docs of every item's symbols can be cut at 400 bytes.
pub fn items_cuttable_exec(items: &Vec<ItemModel>) -> (r: bool)
    ensures
        r == items_cuttable(items@),
{
    let mut i: usize = 0;
    while i < items.len()
        invariant
            i <= items@.len(),
            forall|k: int| 0 <= k < i ==> item_cuttable(#[trigger] items@[k]),
        decreases items@.len() - i,
    {
        if !item_cuttable_exec(&items[i]) {
            return false;
        }
        i += 1;
    }
    true
}

fn fns_cuttable_exec(fs: &Vec<FnModel>, only_pub: bool) -> (r: bool)
    ensures
        r == fns_cuttable(fs@, only_pub),
{
    let mut i: usize = 0;
    while i < fs.len()
        invariant
            i <= fs@.len(),
            forall|k: int| 0 <= k < i && (!only_pub || fs@[k].is_pub) ==> doc_cuttable(#[trigger] fs@[k].attrs@),
        decreases fs@.len() - i,
    {
        if (!only_pub || fs[i].is_pub) && !doc_cuttable_exec(&fs[i].attrs) {
            return false;
        }
        i += 1;
    }
    true
}

} // verus!
