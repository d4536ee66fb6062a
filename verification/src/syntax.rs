//! Reading a Rust source file with `syn` and indexing its items.
//!
//! `syn` parses the text; trusted wrappers hand each piece of the syntax tree
//! over as plain values, field by field, and the functions here assemble them
//! into [`ItemModel`]s. What the items are worth to the index is decided in
//! `parse`, over those models.

use vstd::prelude::*;

use quote::ToTokens;
use syn::spanned::Spanned;
use syn::Item;

use crate::api_index::{ApiSymbol, TraitImplRecord};
use crate::parse::{
    impl_view, index_file, items_cuttable, items_cuttable_exec, items_impls, items_symbols, sym_view, AttrModel,
    FnModel, ItemModel, TypeModel,
};

verus! {

/// A parsed item of a file, carried through opaquely.
#[verifier::external_type_specification]
#[verifier::external_body]
pub struct ExItem(syn::Item);

/// A parsed attribute, carried through opaquely.
#[verifier::external_type_specification]
#[verifier::external_body]
pub struct ExAttribute(syn::Attribute);

/// A parsed type, carried through opaquely.
#[verifier::external_type_specification]
#[verifier::external_body]
pub struct ExType(syn::Type);

/// A parsed item of a trait body, carried through opaquely.
#[verifier::external_type_specification]
#[verifier::external_body]
pub struct ExTraitItem(syn::TraitItem);

/// A parsed item of an impl body, carried through opaquely.
#[verifier::external_type_specification]
#[verifier::external_body]
pub struct ExImplItem(syn::ImplItem);

/// The item models of a source text as `syn::parse_file` parses it (each
/// item described as `item_model` reads it); `None` where `syn` refuses the
/// text.
pub uninterp spec fn syn_items(text: Seq<char>) -> Option<Seq<ItemModel>>;

/// Calls `syn::parse_file` on the text and describes each item with
/// `item_model`. The result is named: `syn_items` of the text, `None` exactly
/// when `syn` refuses it.
#[verifier::external_body]
pub fn parse_items(text: &str) -> (r: Option<Vec<ItemModel>>)
    ensures
        match r {
            Some(v) => syn_items(text@) == Some(v@),
            None => syn_items(text@) is None,
        },
{
    syn::parse_file(text).ok().map(|f| f.items.iter().map(|i| item_model(i)).collect())
}

/// The kind of a parsed item.
pub enum ItemTag {
    Struct,
    Enum,
    Trait,
    Fn,
    TypeAlias,
    Const,
    Macro,
    Impl,
    Other,
}

/// Tells the variants of `syn::Item` apart. Nothing more is claimed.
#[verifier::external_body]
fn item_tag(i: &Item) -> ItemTag {
    match i {
        Item::Struct(_) => ItemTag::Struct,
        Item::Enum(_) => ItemTag::Enum,
        Item::Trait(_) => ItemTag::Trait,
        Item::Fn(_) => ItemTag::Fn,
        Item::Type(_) => ItemTag::TypeAlias,
        Item::Const(_) => ItemTag::Const,
        Item::Macro(_) => ItemTag::Macro,
        Item::Impl(_) => ItemTag::Impl,
        _ => ItemTag::Other,
    }
}

/// The item's identifier as text (a function's from its signature, a macro's
/// when it has one). Nothing is claimed of it.
#[verifier::external_body]
fn item_name(i: &Item) -> Option<String> {
    match i {
        Item::Struct(x) => Some(x.ident.to_string()),
        Item::Enum(x) => Some(x.ident.to_string()),
        Item::Trait(x) => Some(x.ident.to_string()),
        Item::Fn(x) => Some(x.sig.ident.to_string()),
        Item::Type(x) => Some(x.ident.to_string()),
        Item::Const(x) => Some(x.ident.to_string()),
        Item::Macro(x) => x.ident.as_ref().map(|d| d.to_string()),
        _ => None,
    }
}

/// Whether the item's visibility is `pub` (`syn::Visibility::Public`).
/// Nothing is claimed of it.
#[verifier::external_body]
fn item_is_pub(i: &Item) -> bool {
    let vis = match i {
        Item::Struct(x) => &x.vis,
        Item::Enum(x) => &x.vis,
        Item::Trait(x) => &x.vis,
        Item::Fn(x) => &x.vis,
        Item::Type(x) => &x.vis,
        Item::Const(x) => &x.vis,
        _ => return false,
    };
    matches!(vis, syn::Visibility::Public(_))
}

/// The number of fields of a struct (`Fields::len`) or variants of an enum.
/// Nothing is claimed of it.
#[verifier::external_body]
fn item_count(i: &Item) -> usize {
    match i {
        Item::Struct(x) => x.fields.len(),
        Item::Enum(x) => x.variants.len(),
        _ => 0,
    }
}

/// The line on which the item's span starts. Nothing is claimed of it.
#[verifier::external_body]
fn item_line(i: &Item) -> usize {
    i.span().start().line
}

/// The item's attributes, for the kinds the index reads. Nothing is claimed
/// of them.
#[verifier::external_body]
fn item_attrs(i: &Item) -> Option<&Vec<syn::Attribute>> {
    match i {
        Item::Struct(x) => Some(&x.attrs),
        Item::Enum(x) => Some(&x.attrs),
        Item::Trait(x) => Some(&x.attrs),
        Item::Fn(x) => Some(&x.attrs),
        Item::Type(x) => Some(&x.attrs),
        Item::Const(x) => Some(&x.attrs),
        Item::Macro(x) => Some(&x.attrs),
        _ => None,
    }
}

/// An attribute as plain values: its path as one identifier
/// (`Path::get_ident`), the string literal of a `path = "..."` attribute, and
/// its token text. Nothing is claimed of them.
#[verifier::external_body]
fn attr_model(a: &syn::Attribute) -> AttrModel {
    let value = match &a.meta {
        syn::Meta::NameValue(nv) => match &nv.value {
            syn::Expr::Lit(syn::ExprLit { lit: syn::Lit::Str(s), .. }) => Some(s.value()),
            _ => None,
        },
        _ => None,
    };
    AttrModel { name: a.path().get_ident().map(|d| d.to_string()), value, tokens: a.to_token_stream().to_string() }
}

/// The items of a trait's body. Nothing is claimed of them.
#[verifier::external_body]
fn trait_items(i: &Item) -> Option<&Vec<syn::TraitItem>> {
    match i {
        Item::Trait(t) => Some(&t.items),
        _ => None,
    }
}

/// A method of a trait body: its name, its signature's token text, its
/// attributes and the line its span starts on. Nothing is claimed of them.
#[verifier::external_body]
fn trait_item_fn(t: &syn::TraitItem) -> Option<(String, String, &Vec<syn::Attribute>, usize)> {
    match t {
        syn::TraitItem::Fn(f) => Some(
            (f.sig.ident.to_string(), f.sig.to_token_stream().to_string(), &f.attrs, f.span().start().line),
        ),
        _ => None,
    }
}

/// The token text of a function item's signature. Nothing is claimed of it.
#[verifier::external_body]
fn item_fn_sig(i: &Item) -> Option<String> {
    match i {
        Item::Fn(f) => Some(f.sig.to_token_stream().to_string()),
        _ => None,
    }
}

/// The self type of an impl. Nothing is claimed of it.
#[verifier::external_body]
fn impl_self_ty(i: &Item) -> Option<&syn::Type> {
    match i {
        Item::Impl(m) => Some(&m.self_ty),
        _ => None,
    }
}

/// A type as plain values: a path by its last segment's identifier, a
/// reference by the type it refers to. Nothing is claimed of it.
#[verifier::external_body]
fn type_model(t: &syn::Type) -> TypeModel {
    match t {
        syn::Type::Path(p) => TypeModel::Path(p.path.segments.last().map(|s| s.ident.to_string())),
        syn::Type::Reference(r) => TypeModel::Reference(Box::new(type_model(&r.elem))),
        _ => TypeModel::Other,
    }
}

/// The names of an impl's type parameters (`Generics::type_params`).
/// Nothing is claimed of them.
#[verifier::external_body]
fn impl_type_params(i: &Item) -> Vec<String> {
    match i {
        Item::Impl(m) => m.generics.type_params().map(|p| p.ident.to_string()).collect(),
        _ => Vec::new(),
    }
}

/// For a trait impl, the identifier of the trait path's last segment, if the
/// path has one. Nothing is claimed of it.
#[verifier::external_body]
fn impl_trait(i: &Item) -> Option<Option<String>> {
    match i {
        Item::Impl(m) => m.trait_.as_ref().map(|(_, path, _)| path.segments.last().map(|s| s.ident.to_string())),
        _ => None,
    }
}

/// The items of an impl's body. Nothing is claimed of them.
#[verifier::external_body]
fn impl_items(i: &Item) -> Option<&Vec<syn::ImplItem>> {
    match i {
        Item::Impl(m) => Some(&m.items),
        _ => None,
    }
}

/// A method of an impl body: its name, whether it is `pub`, its signature's
/// token text, its attributes and the line its span starts on. Nothing is
/// claimed of them.
#[verifier::external_body]
fn impl_item_fn(t: &syn::ImplItem) -> Option<(String, bool, String, &Vec<syn::Attribute>, usize)> {
    match t {
        syn::ImplItem::Fn(f) => Some(
            (
                f.sig.ident.to_string(),
                matches!(f.vis, syn::Visibility::Public(_)),
                f.sig.to_token_stream().to_string(),
                &f.attrs,
                f.span().start().line,
            ),
        ),
        _ => None,
    }
}

/// The attributes as plain values, in order.
fn attrs_of(attrs: &Vec<syn::Attribute>) -> Vec<AttrModel> {
    let mut out: Vec<AttrModel> = Vec::new();
    let mut k: usize = 0;
    while k < attrs.len()
        decreases attrs@.len() - k,
    {
        out.push(attr_model(&attrs[k]));
        k += 1;
    }
    out
}

/// The attributes of an item, or none.
fn item_attr_models(i: &Item) -> Vec<AttrModel> {
    match item_attrs(i) {
        Some(a) => attrs_of(a),
        None => Vec::new(),
    }
}

/// The methods of a trait's body, in order.
fn trait_methods(i: &Item) -> Vec<FnModel> {
    let mut out: Vec<FnModel> = Vec::new();
    if let Some(items) = trait_items(i) {
        let mut k: usize = 0;
        while k < items.len()
            decreases items@.len() - k,
        {
            if let Some((name, sig, attrs, line)) = trait_item_fn(&items[k]) {
                out.push(FnModel { name, is_pub: true, sig_tokens: sig, attrs: attrs_of(attrs), line });
            }
            k += 1;
        }
    }
    out
}

/// The methods of an impl's body, in order.
fn impl_methods(i: &Item) -> Vec<FnModel> {
    let mut out: Vec<FnModel> = Vec::new();
    if let Some(items) = impl_items(i) {
        let mut k: usize = 0;
        while k < items.len()
            decreases items@.len() - k,
        {
            if let Some((name, is_pub, sig, attrs, line)) = impl_item_fn(&items[k]) {
                out.push(FnModel { name, is_pub, sig_tokens: sig, attrs: attrs_of(attrs), line });
            }
            k += 1;
        }
    }
    out
}

/// The name `syn` gave, or empty text where it gave none (it always gives
/// one for the kinds that ask for it).
fn name_or_empty(n: Option<String>) -> String {
    match n {
        Some(s) => s,
        None => String::new(),
    }
}

/// The model of a parsed item.
fn item_model(i: &Item) -> ItemModel {
    let line = item_line(i);
    match item_tag(i) {
        ItemTag::Struct => ItemModel::Struct {
            name: name_or_empty(item_name(i)),
            is_pub: item_is_pub(i),
            fields: item_count(i),
            attrs: item_attr_models(i),
            line,
        },
        ItemTag::Enum => ItemModel::Enum {
            name: name_or_empty(item_name(i)),
            is_pub: item_is_pub(i),
            variants: item_count(i),
            attrs: item_attr_models(i),
            line,
        },
        ItemTag::Trait => ItemModel::Trait {
            name: name_or_empty(item_name(i)),
            is_pub: item_is_pub(i),
            attrs: item_attr_models(i),
            line,
            methods: trait_methods(i),
        },
        ItemTag::Fn => ItemModel::Fn {
            f: FnModel {
                name: name_or_empty(item_name(i)),
                is_pub: item_is_pub(i),
                sig_tokens: name_or_empty(item_fn_sig(i)),
                attrs: item_attr_models(i),
                line,
            },
        },
        ItemTag::TypeAlias => ItemModel::TypeAlias {
            name: name_or_empty(item_name(i)),
            is_pub: item_is_pub(i),
            attrs: item_attr_models(i),
            line,
        },
        ItemTag::Const => ItemModel::Const {
            name: name_or_empty(item_name(i)),
            is_pub: item_is_pub(i),
            attrs: item_attr_models(i),
            line,
        },
        ItemTag::Macro => ItemModel::Macro { name: item_name(i), attrs: item_attr_models(i), line },
        ItemTag::Impl => ItemModel::Impl {
            self_ty: match impl_self_ty(i) {
                Some(t) => type_model(t),
                None => TypeModel::Other,
            },
            type_params: impl_type_params(i),
            trait_ident: match impl_trait(i) {
                Some(Some(t)) => Some(t),
                Some(None) => Some(String::new()),
                None => None,
            },
            methods: impl_methods(i),
        },
        ItemTag::Other => ItemModel::Other,
    }
}

/// The symbols and trait implementations of a source file: `None` when
/// `syn` refuses the text, or when the doc of some symbol cannot be cut at
/// 400 bytes; else what `index_file` gives for its items.
pub fn index_source(text: &str, rel: &str) -> (r: Option<(Vec<ApiSymbol>, Vec<TraitImplRecord>)>)
    ensures
        r is None <==> (syn_items(text@) is None || !items_cuttable(syn_items(text@)->0)),
        r matches Some(p) ==> {
            &&& p.0@.map_values(|s: ApiSymbol| sym_view(s)) == items_symbols(syn_items(text@)->0, rel@)
            &&& p.1@.map_values(|t: TraitImplRecord| impl_view(t)) == items_impls(syn_items(text@)->0)
        },
{
    let items = match parse_items(text) {
        Some(v) => v,
        None => return None,
    };
    if !items_cuttable_exec(&items) {
        return None;
    }
    Some(index_file(&items, rel))
}

} // verus!
