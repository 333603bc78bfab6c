//! The model list the proxy serves: upstream lists with ids prefixed by
//! the upstream name, merged, and extended with the configured aliases.

use vstd::prelude::*;
use crate::json::{Json, JsonV, json_parse_bytes, json_text, parse_json_bytes, to_json_text, jarr, jentries, jget, jstr, jviews, lemma_jentries_empty, lemma_jviews, obj_insert, push_member};
use crate::text::str_eq;
use crate::upstream::{prefix_model_item_id, prefixed_item};

verus! {

/// `{"id": alias, "object": "model"}`.
pub open spec fn alias_item(alias: Seq<char>) -> JsonV {
    JsonV::Object(seq![("id"@, JsonV::Str(alias)), ("object"@, JsonV::Str("model"@))])
}

/// Some item of the list has this string id.
pub open spec fn has_model_id(items: Seq<JsonV>, id: Seq<char>) -> bool {
    exists|i: int| 0 <= i < items.len() && jstr(jget(#[trigger] items[i], "id"@)) == Some(id)
}

/// The list with an item appended for each alias whose id is not listed
/// yet, in alias order.
pub open spec fn with_alias_items(items: Seq<JsonV>, aliases: Seq<Seq<char>>) -> Seq<JsonV>
    decreases aliases.len(),
{
    if aliases.len() == 0 {
        items
    } else {
        let prev = with_alias_items(items, aliases.drop_last());
        if has_model_id(prev, aliases.last()) {
            prev
        } else {
            prev.push(alias_item(aliases.last()))
        }
    }
}

/// The alias names of an alias table, in order.
pub open spec fn alias_names(aliases: Seq<(String, String)>) -> Seq<Seq<char>> {
    aliases.map_values(|a: (String, String)| a.0@)
}

fn alias_item_exec(alias: &str) -> (r: Json)
    ensures
        r@ == alias_item(alias@),
{
    let mut es: Vec<(String, Json)> = Vec::new();
    proof {
        lemma_jentries_empty(es@);
    }
    push_member(&mut es, "id", Json::string(alias));
    push_member(&mut es, "object", Json::string("model"));
    assert(jentries(es@) =~= (alias_item(alias@))->Object_0);
    Json::Object(es)
}

fn has_id(items: &Vec<Json>, id: &str) -> (r: bool)
    ensures
        r == has_model_id(jviews(items@), id@),
{
    proof {
        lemma_jviews(items@);
    }
    let ghost iv = jviews(items@);
    let mut i: usize = 0;
    while i < items.len()
        invariant
            i <= items@.len(),
            iv == jviews(items@),
            iv.len() == items@.len(),
            forall|j: int| 0 <= j < items@.len() ==> #[trigger] iv[j] == items@[j]@,
            forall|j: int| 0 <= j < i ==> jstr(jget(#[trigger] iv[j], "id"@)) != Some(id@),
        decreases items.len() - i,
    {
        assert(iv[i as int] == items@[i as int]@);
        match items[i].get("id") {
            Some(v) => match v.as_str() {
                Some(s) => {
                    if str_eq(s, id) {
                        return true;
                    }
                },
                None => {},
            },
            None => {},
        }
        i = i + 1;
    }
    false
}

/// Appends an item for each alias not already listed.
fn append_aliases(items: &mut Vec<Json>, aliases: &Vec<(String, String)>)
    ensures
        jviews(final(items)@) == with_alias_items(jviews(old(items)@), alias_names(aliases@)),
{
    let ghost start = jviews(items@);
    let ghost names = alias_names(aliases@);
    let mut i: usize = 0;
    while i < aliases.len()
        invariant
            i <= aliases@.len(),
            names == alias_names(aliases@),
            jviews(items@) == with_alias_items(start, names.take(i as int)),
        decreases aliases.len() - i,
    {
        assert(names.take(i + 1).drop_last() =~= names.take(i as int));
        assert(names.take(i + 1).last() == aliases@[i as int].0@);
        let present = has_id(items, aliases[i].0.as_str());
        if !present {
            let ghost before = items@;
            items.push(alias_item_exec(aliases[i].0.as_str()));
            proof {
                lemma_jviews(before);
                lemma_jviews(items@);
                assert(jviews(items@) =~= jviews(before).push(alias_item(aliases@[i as int].0@)));
            }
        }
        i = i + 1;
    }
    assert(names.take(names.len() as int) =~= names);
}

/// The body with an item appended to its `data` list for each alias not
/// listed yet; a body without a `data` list stays as it is.
pub open spec fn body_with_aliases(body: JsonV, aliases: Seq<Seq<char>>) -> JsonV {
    match body {
        JsonV::Object(es) => match jarr(jget(body, "data"@)) {
            Some(items) => JsonV::Object(obj_insert(es, "data"@, JsonV::Array(with_alias_items(items, aliases)))),
            None => body,
        },
        _ => body,
    }
}

/// Adds the alias names to a model-list body.
pub fn append_model_alias_items(body: &mut Json, aliases: &Vec<(String, String)>)
    ensures
        final(body)@ == body_with_aliases(old(body)@, alias_names(aliases@)),
{
    let mut items = match body.get_array("data") {
        Some(a) => {
            let mut copy: Vec<Json> = Vec::new();
            let mut i: usize = 0;
            proof {
                lemma_jviews(a@);
            }
            while i < a.len()
                invariant
                    i <= a@.len(),
                    jviews(copy@) == jviews(a@).take(i as int),
                    jviews(a@).len() == a@.len(),
                    forall|j: int| 0 <= j < a@.len() ==> #[trigger] jviews(a@)[j] == a@[j]@,
                decreases a.len() - i,
            {
                let ghost before = copy@;
                copy.push(a[i].deep_clone());
                proof {
                    lemma_jviews(before);
                    lemma_jviews(copy@);
                    assert(jviews(copy@) =~= jviews(a@).take(i + 1));
                }
                i = i + 1;
            }
            assert(jviews(a@).take(a@.len() as int) =~= jviews(a@));
            copy
        },
        None => {
            return;
        },
    };
    append_aliases(&mut items, aliases);
    body.insert("data", Json::Array(items));
}

/// A model list merged from several upstreams: each upstream's items, in
/// upstream order, with ids prefixed by the upstream name when it has one.
pub open spec fn merged_items(lists: Seq<(Option<Seq<char>>, Seq<JsonV>)>) -> Seq<JsonV>
    decreases lists.len(),
{
    if lists.len() == 0 {
        Seq::empty()
    } else {
        let (name, items) = lists.last();
        merged_items(lists.drop_last()) + match name {
            Some(n) => items.map_values(|x: JsonV| prefixed_item(x, n)),
            None => items,
        }
    }
}

pub open spec fn lists_view(lists: Seq<(Option<String>, Vec<Json>)>) -> Seq<(Option<Seq<char>>, Seq<JsonV>)> {
    lists.map_values(
        |l: (Option<String>, Vec<Json>)|
            (
                match l.0 {
                    Some(n) => Some(n@),
                    None => None,
                },
                jviews(l.1@),
            ),
    )
}

/// The model list served for several upstreams:
/// `{"object": "list", "data": merged}`, plus the alias items when aliases
/// are exposed.
pub fn merge_model_lists(
    lists: Vec<(Option<String>, Vec<Json>)>,
    expose_aliases: bool,
    aliases: &Vec<(String, String)>,
) -> (r: Json)
    ensures
        r@ == JsonV::Object(seq![
            ("object"@, JsonV::Str("list"@)),
            ("data"@, JsonV::Array(if expose_aliases {
                with_alias_items(merged_items(lists_view(lists@)), alias_names(aliases@))
            } else {
                merged_items(lists_view(lists@))
            })),
        ]),
{
    let ghost lv = lists_view(lists@);
    let mut merged: Vec<Json> = Vec::new();
    let mut lists = lists;
    let ghost all = lists@;
    let mut k: usize = 0;
    let n = lists.len();
    while k < n
        invariant
            k <= n,
            n == all.len(),
            lists@ == all,
            lv == lists_view(all),
            jviews(merged@) == merged_items(lv.take(k as int)),
        decreases n - k,
    {
        let ghost entry = lv[k as int];
        assert(lv.take(k + 1).drop_last() =~= lv.take(k as int));
        assert(lv.take(k + 1).last() == entry);
        let name = &lists[k].0;
        let items = &lists[k].1;
        proof {
            lemma_jviews(items@);
        }
        let ghost base = jviews(merged@);
        let mut j: usize = 0;
        while j < items.len()
            invariant
                j <= items@.len(),
                entry == (match *name {
                    Some(x) => Some(x@),
                    None => None,
                }, jviews(items@)),
                jviews(items@).len() == items@.len(),
                forall|q: int| 0 <= q < items@.len() ==> #[trigger] jviews(items@)[q] == items@[q]@,
                jviews(merged@) == base + (match entry.0 {
                    Some(nm) => entry.1.take(j as int).map_values(|x: JsonV| prefixed_item(x, nm)),
                    None => entry.1.take(j as int),
                }),
            decreases items.len() - j,
        {
            let mut item = items[j].deep_clone();
            match name {
                Some(nm) => {
                    prefix_model_item_id(&mut item, nm.as_str());
                },
                None => {},
            }
            let ghost before = merged@;
            merged.push(item);
            proof {
                lemma_jviews(before);
                lemma_jviews(merged@);
                assert(entry.1.take(j + 1) =~= entry.1.take(j as int).push(items@[j as int]@));
                match entry.0 {
                    Some(nm) => {
                        assert(entry.1.take(j + 1).map_values(|x: JsonV| prefixed_item(x, nm)) =~= entry.1.take(
                            j as int,
                        ).map_values(|x: JsonV| prefixed_item(x, nm)).push(prefixed_item(items@[j as int]@, nm)));
                    },
                    None => {},
                }
                assert(jviews(merged@) =~= jviews(before).push(item@));
            }
            j = j + 1;
        }
        assert(entry.1.take(entry.1.len() as int) =~= entry.1);
        k = k + 1;
    }
    assert(lv.take(lv.len() as int) =~= lv);
    if expose_aliases {
        append_aliases(&mut merged, aliases);
    }
    let mut es: Vec<(String, Json)> = Vec::new();
    proof {
        lemma_jentries_empty(es@);
    }
    let ghost mv = jviews(merged@);
    push_member(&mut es, "object", Json::string("list"));
    push_member(&mut es, "data", Json::Array(merged));
    assert(jentries(es@) =~= seq![("object"@, JsonV::Str("list"@)), ("data"@, JsonV::Array(mv))]);
    Json::Object(es)
}

/// The body with every item of its `data` list prefixed by the upstream
/// name; a body without a `data` list stays as it is.
pub open spec fn body_with_prefixed_ids(body: JsonV, name: Seq<char>) -> JsonV {
    match body {
        JsonV::Object(es) => match jarr(jget(body, "data"@)) {
            Some(items) => JsonV::Object(
                obj_insert(es, "data"@, JsonV::Array(items.map_values(|x: JsonV| prefixed_item(x, name)))),
            ),
            None => body,
        },
        _ => body,
    }
}

fn prefix_items_in_body(body: &mut Json, name: &str)
    ensures
        final(body)@ == body_with_prefixed_ids(old(body)@, name@),
{
    let items = match body.get_array("data") {
        Some(a) => {
            proof {
                lemma_jviews(a@);
            }
            let mut out: Vec<Json> = Vec::new();
            let mut i: usize = 0;
            while i < a.len()
                invariant
                    i <= a@.len(),
                    jviews(a@).len() == a@.len(),
                    forall|j: int| 0 <= j < a@.len() ==> #[trigger] jviews(a@)[j] == a@[j]@,
                    jviews(out@) == jviews(a@).take(i as int).map_values(|x: JsonV| prefixed_item(x, name@)),
                decreases a.len() - i,
            {
                let mut item = a[i].deep_clone();
                prefix_model_item_id(&mut item, name);
                let ghost before = out@;
                out.push(item);
                proof {
                    lemma_jviews(before);
                    lemma_jviews(out@);
                    assert(jviews(a@).take(i + 1) =~= jviews(a@).take(i as int).push(a@[i as int]@));
                    assert(jviews(out@) =~= jviews(before).push(item@));
                    assert(jviews(a@).take(i + 1).map_values(|x: JsonV| prefixed_item(x, name@)) =~= jviews(a@).take(
                        i as int,
                    ).map_values(|x: JsonV| prefixed_item(x, name@)).push(prefixed_item(a@[i as int]@, name@)));
                }
                i = i + 1;
            }
            assert(jviews(a@).take(a@.len() as int) =~= jviews(a@));
            out
        },
        None => {
            return;
        },
    };
    body.insert("data", Json::Array(items));
}

/// The model-list body served for a single upstream: ids prefixed by the
/// upstream's name (if it has one), then alias items (if exposed).
pub open spec fn single_models_body(
    body: JsonV,
    name: Option<Seq<char>>,
    expose_aliases: bool,
    aliases: Seq<Seq<char>>,
) -> JsonV {
    let b1 = match name {
        Some(n) => body_with_prefixed_ids(body, n),
        None => body,
    };
    if expose_aliases {
        body_with_aliases(b1, aliases)
    } else {
        b1
    }
}

/// Rewrites a single upstream's model-list body in place (see
/// [`single_models_body`]).
pub fn rewrite_models_value(
    body: &mut Json,
    name: Option<&str>,
    expose_aliases: bool,
    aliases: &Vec<(String, String)>,
)
    ensures
        final(body)@ == single_models_body(
            old(body)@,
            match name {
                Some(n) => Some(n@),
                None => None,
            },
            expose_aliases,
            alias_names(aliases@),
        ),
{
    match name {
        Some(n) => prefix_items_in_body(body, n),
        None => {},
    }
    if expose_aliases {
        append_model_alias_items(body, aliases);
    }
}

/// The `data` items of an upstream's model-list body: `None` when the body
/// is not JSON; no items when it has no `data` array.
pub open spec fn model_items_of(body: JsonV) -> Seq<JsonV> {
    match jarr(jget(body, "data"@)) {
        Some(s) => s,
        None => Seq::empty(),
    }
}

/// Reads the items of an upstream's model-list response (see
/// [`model_items_of`]).
pub fn model_items_of_body(body: &[u8]) -> (r: Option<Vec<Json>>)
    ensures
        r is None <==> json_parse_bytes(body@) is None,
        r matches Some(items) ==> jviews(items@) == model_items_of(json_parse_bytes(body@)->0),
{
    let v = match parse_json_bytes(body) {
        Some(v) => v,
        None => {
            return None;
        },
    };
    match v.get_array("data") {
        Some(a) => {
            let mut out: Vec<Json> = Vec::new();
            let mut i: usize = 0;
            while i < a.len()
                invariant
                    i <= a@.len(),
                    jviews(out@) == jviews(a@).take(i as int),
                decreases a.len() - i,
            {
                let ghost before = out@;
                out.push(a[i].deep_clone());
                proof {
                    lemma_jviews(before);
                    lemma_jviews(out@);
                    lemma_jviews(a@);
                    assert(jviews(out@) =~= jviews(a@).take(i + 1));
                }
                i = i + 1;
            }
            proof {
                lemma_jviews(a@);
            }
            assert(jviews(a@).take(a@.len() as int) =~= jviews(a@));
            Some(out)
        },
        None => {
            let out: Vec<Json> = Vec::new();
            proof {
                lemma_jviews(out@);
            }
            assert(jviews(out@) =~= Seq::<JsonV>::empty());
            Some(out)
        },
    }
}

/// Rewrites a single upstream's model-list response: `None` when it is to
/// be passed on unchanged (nothing to rewrite, or the body is not JSON),
/// else the rewritten JSON text.
pub fn rewrite_models_body(
    bytes: &[u8],
    name: Option<&str>,
    expose_aliases: bool,
    aliases: &Vec<(String, String)>,
) -> (r: Option<String>)
    ensures
        r is Some <==> ((name is Some || expose_aliases) && json_parse_bytes(bytes@) is Some),
        r matches Some(t) ==> t@ == json_text(
            single_models_body(
                json_parse_bytes(bytes@)->0,
                match name {
                    Some(n) => Some(n@),
                    None => None,
                },
                expose_aliases,
                alias_names(aliases@),
            ),
        ),
{
    if name.is_none() && !expose_aliases {
        return None;
    }
    let mut body = match parse_json_bytes(bytes) {
        Some(b) => b,
        None => {
            return None;
        },
    };
    rewrite_models_value(&mut body, name, expose_aliases, aliases);
    Some(to_json_text(&body))
}

} // verus!
