//! The canonical text of an entity: its type and its properties in key order.

use vstd::prelude::*;
use crate::json;
use crate::json::Json;
use crate::json::JsonModel;
use crate::strmap;
use crate::strmap::StrMap;

verus! {

broadcast use vstd::string::group_string_axioms;

/// A string as it stands, any other value as JSON text.
pub open spec fn plain_text(j: JsonModel) -> Seq<char> {
    match j {
        JsonModel::Str(s) => s,
        _ => json::json_text(j),
    }
}

/// A string as it stands, any other value as JSON text.
pub fn json_to_string(j: &Json) -> (r: String)
    ensures
        r@ == plain_text(j.deep_view()),
{
    match j {
        Json::Str(s) => s.clone(),
        _ => json::render_json(j),
    }
}

/// The type line, then one line for each property.
pub open spec fn canonical_text(kind: Seq<char>, props: Seq<(Seq<char>, JsonModel)>) -> Seq<char>
    decreases props.len(),
{
    if props.len() == 0 {
        "type: "@ + kind
    } else {
        canonical_text(kind, props.drop_last()) + "\n"@ + props.last().0 + ": "@ + plain_text(
            props.last().1,
        )
    }
}

/// The canonical text of an entity.
pub fn build_canonical_text(entity_type: &str, props: &StrMap<Json>) -> (r: String)
    ensures
        r@ == canonical_text(entity_type@, props.deep_view()),
{
    let ghost all = props.deep_view();
    let mut out = "type: ".to_owned();
    out.append(entity_type);
    let mut i: usize = 0;
    while i < props.entries.len()
        invariant
            all == props.deep_view(),
            0 <= i <= props.entries@.len(),
            out@ == canonical_text(entity_type@, all.take(i as int)),
        decreases props.entries@.len() - i,
    {
        proof {
            assert(all.take(i + 1).drop_last() =~= all.take(i as int));
            assert(all.take(i + 1).last() == props.entries@[i as int].deep_view());
        }
        out.append("\n");
        out.append(props.entries[i].0.as_str());
        out.append(": ");
        out.append(json_to_string(&props.entries[i].1).as_str());
        i += 1;
    }
    assert(all.take(i as int) =~= all);
    out
}

/// The order in which two properties are set makes no difference to the
/// canonical text.
pub proof fn law_canonical_text_ignores_order(
    kind: Seq<char>,
    props: Seq<(Seq<char>, JsonModel)>,
    a: (Seq<char>, JsonModel),
    b: (Seq<char>, JsonModel),
)
    requires
        a.0 != b.0,
        strmap::assoc_sorted(props),
    ensures
        canonical_text(
            kind,
            strmap::assoc_insert(strmap::assoc_insert(props, a.0, a.1), b.0, b.1),
        ) == canonical_text(
            kind,
            strmap::assoc_insert(strmap::assoc_insert(props, b.0, b.1), a.0, a.1),
        ),
{
    strmap::law_inserts_commute(props, a.0, a.1, b.0, b.1);
}

} // verus!
