//! Text of the scripts that are written out.

use vstd::prelude::*;

verus! {

/// A string as it is written in a script: in double quotes, with the
/// characters escaped that JSON asks to be escaped.
pub uninterp spec fn json_string_of(text: Seq<char>) -> Seq<char>;

/// `serde_json::to_string` of a string slice, which cannot fail.
#[verifier::external_body]
pub(crate) fn json_string(text: &str) -> (json: String)
    ensures
        json@ == json_string_of(text@),
{
    serde_json::to_string(text).unwrap_or_default()
}

/// The texts of `items`, each on a line of its own after `indent`, with a
/// comma after each but the last.
pub open spec fn json_lines(items: Seq<Seq<char>>, indent: Seq<char>) -> Seq<char>
    decreases items.len(),
{
    if items.len() == 0 {
        Seq::empty()
    } else if items.len() == 1 {
        indent + json_string_of(items[0])
    } else {
        json_lines(items.drop_last(), indent) + ",\n"@ + indent + json_string_of(items.last())
    }
}

/// The texts of `items` as a list over several lines, as deep as `indent`;
/// `[]` where there is none.
pub open spec fn json_string_list_pretty(items: Seq<Seq<char>>, indent: Seq<char>) -> Seq<char> {
    if items.len() == 0 {
        "[]"@
    } else {
        "[\n"@ + json_lines(items, indent + "  "@) + "\n"@ + indent + "]"@
    }
}

/// The texts of `items` as a list on one line.
pub open spec fn json_string_list(items: Seq<Seq<char>>) -> Seq<char> {
    "["@ + json_items(items) + "]"@
}

/// The texts of `items` with a comma between each two.
pub open spec fn json_items(items: Seq<Seq<char>>) -> Seq<char>
    decreases items.len(),
{
    if items.len() == 0 {
        Seq::empty()
    } else if items.len() == 1 {
        json_string_of(items[0])
    } else {
        json_items(items.drop_last()) + ","@ + json_string_of(items.last())
    }
}

/// Writes `items` as a list on one line.
pub fn write_string_list(items: &Vec<String>) -> (json: String)
    ensures
        json@ == json_string_list(crate::text::texts(items@)),
{
    let ghost all = crate::text::texts(items@);
    let mut json = String::from_str("[");
    let mut i: usize = 0;
    assert(all.subrange(0, 0) =~= Seq::<Seq<char>>::empty());
    assert(json@ =~= "["@ + json_items(all.subrange(0, 0)));
    while i < items.len()
        invariant
            i <= items@.len(),
            all == crate::text::texts(items@),
            json@ == "["@ + json_items(all.subrange(0, i as int)),
        decreases items@.len() - i,
    {
        proof {
            let upto = all.subrange(0, i + 1);
            assert(upto.drop_last() =~= all.subrange(0, i as int));
            assert(upto.last() == items@[i as int]@);
            if i == 0 {
                assert(upto[0] == items@[0]@);
                assert(json@ + json_string_of(items@[0]@) =~= "["@ + json_items(upto));
            } else {
                assert(json@ + ","@ + json_string_of(items@[i as int]@) =~= "["@ + json_items(
                    upto,
                ));
            }
        }
        if i > 0 {
            json.append(",");
        }
        json.append(json_string(items[i].as_str()).as_str());
        i += 1;
    }
    assert(all.subrange(0, i as int) =~= all);
    json.append("]");
    json
}

/// Writes `items` as a list over several lines, as deep as `indent`.
pub fn write_string_list_pretty(items: &Vec<String>, indent: &str) -> (json: String)
    ensures
        json@ == json_string_list_pretty(crate::text::texts(items@), indent@),
{
    if items.len() == 0 {
        return String::from_str("[]");
    }
    let ghost all = crate::text::texts(items@);
    let ghost deeper = indent@ + "  "@;
    let mut json = String::from_str("[\n");
    let mut i: usize = 0;
    assert(all.subrange(0, 0) =~= Seq::<Seq<char>>::empty());
    assert(json@ =~= "[\n"@ + json_lines(all.subrange(0, 0), deeper));
    while i < items.len()
        invariant
            i <= items@.len(),
            all == crate::text::texts(items@),
            deeper == indent@ + "  "@,
            json@ == "[\n"@ + json_lines(all.subrange(0, i as int), deeper),
        decreases items@.len() - i,
    {
        proof {
            let upto = all.subrange(0, i + 1);
            assert(upto.drop_last() =~= all.subrange(0, i as int));
            assert(upto.last() == items@[i as int]@);
            if i == 0 {
                assert(upto[0] == items@[0]@);
                assert(json@ + indent@ + "  "@ + json_string_of(items@[0]@) =~= "[\n"@
                    + json_lines(upto, deeper));
            } else {
                assert(json@ + ",\n"@ + indent@ + "  "@ + json_string_of(items@[i as int]@)
                    =~= "[\n"@ + json_lines(upto, deeper));
            }
        }
        if i > 0 {
            json.append(",\n");
        }
        json.append(indent);
        json.append("  ");
        json.append(json_string(items[i].as_str()).as_str());
        i += 1;
    }
    assert(all.subrange(0, i as int) =~= all);
    json.append("\n");
    json.append(indent);
    json.append("]");
    assert(json@ =~= json_string_list_pretty(all, indent@));
    json
}

} // verus!
