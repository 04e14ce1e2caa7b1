//! Workflow files: which files of the workflow directory are workflows,
//! what file a workflow name stands for, and the checks and edits made to a
//! workflow before it is sent to the image-generation server.

use vstd::prelude::*;
use vstd::string::*;
use crate::json::{
    Json, JsonValue, insert_member, json_wf, key_index, lemma_insert_keeps_names_distinct, lemma_key_index,
    lemma_lookup_insert_other, lemma_lookup_insert_same, lookup, members_view,
    member_index,
};
use crate::text::{
    char_count, chars_le, chars_of, contains_str, count_char, ends_with_str, has_substring, has_suffix, lemma_chars_le_total, lemma_chars_le_transitive, str_equal,
    str_le,
};

verus! {

broadcast use {vstd::seq_lib::to_multiset_insert, vstd::seq_lib::to_multiset_build};

/// The file that holds the workflow named `name`: the name itself when it
/// already ends in `.json`, else the name with `.json` appended.
pub open spec fn workflow_file(name: Seq<char>) -> Seq<char> {
    if has_suffix(name, ".json"@) {
        name
    } else {
        name + ".json"@
    }
}

/// The file name that holds the workflow named `workflow_name`.
pub fn workflow_file_name(workflow_name: &str) -> (r: String)
    ensures
        r@ == workflow_file(workflow_name@),
{
    if ends_with_str(workflow_name, ".json") {
        workflow_name.to_owned()
    } else {
        let mut name = workflow_name.to_owned();
        name.append(".json");
        name
    }
}

/// Index of the last `.` of `name`, or -1 when it has none.
pub open spec fn last_dot(name: Seq<char>) -> int
    decreases name.len(),
{
    if name.len() == 0 {
        -1
    } else if name.last() == '.' {
        name.len() - 1
    } else {
        last_dot(name.drop_last())
    }
}

/// The stem of a file name whose extension is `json`, as a path names
/// them: the extension is what follows the last `.`, unless that `.`
/// opens the name; the stem is what precedes it.
pub open spec fn json_stem(name: Seq<char>) -> Option<Seq<char>> {
    let d = last_dot(name);
    if d > 0 && name.subrange(d + 1, name.len() as int) == "json"@ {
        Some(name.subrange(0, d))
    } else {
        None
    }
}

/// The stems of the names of `json` files among `names`, in order.
pub open spec fn json_stems(names: Seq<Seq<char>>) -> Seq<Seq<char>>
    decreases names.len(),
{
    if names.len() == 0 {
        Seq::empty()
    } else {
        let rest = json_stems(names.drop_last());
        match json_stem(names.last()) {
            Some(stem) => rest.push(stem),
            None => rest,
        }
    }
}

/// The strings of a vector by their characters.
pub open spec fn string_views(v: Seq<String>) -> Seq<Seq<char>> {
    v.map_values(|s: String| s@)
}

/// The sequence is in lexicographic order.
pub open spec fn is_sorted(s: Seq<Seq<char>>) -> bool {
    forall|i: int, j: int| 0 <= i < j < s.len() ==> chars_le(#[trigger] s[i], #[trigger] s[j])
}

proof fn lemma_last_dot(name: Seq<char>)
    ensures
        -1 <= last_dot(name) < name.len(),
        last_dot(name) >= 0 ==> name[last_dot(name)] == '.',
        forall|k: int| last_dot(name) < k < name.len() ==> name[k] != '.',
    decreases name.len(),
{
    if name.len() > 0 && name.last() != '.' {
        lemma_last_dot(name.drop_last());
        assert forall|k: int| last_dot(name) < k < name.len() implies name[k] != '.' by {
            if k < name.len() - 1 {
                assert(name[k] == name.drop_last()[k]);
            }
        }
    }
}

/// The stem of `name` when its extension is `json`.
pub fn json_file_stem(name: &str) -> (r: Option<String>)
    ensures
        match r {
            Some(s) => json_stem(name@) == Some(s@),
            None => json_stem(name@) is None,
        },
{
    let x = chars_of(name);
    proof {
        lemma_last_dot(name@);
    }
    // Find the last dot.
    let mut i: usize = x.len();
    while i > 0 && x[i - 1] != '.'
        invariant
            x@ == name@,
            0 <= i <= x@.len(),
            forall|k: int| i <= k < x@.len() ==> x@[k] != '.',
        decreases i,
    {
        i = i - 1;
    }
    if i <= 1 {
        // No dot, or the only dot opens the name.
        proof {
            if last_dot(name@) > 0 {
                assert(x@[last_dot(name@)] == '.');
            }
        }
        return None;
    }
    let d = i - 1;
    assert(last_dot(name@) == d) by {
        if last_dot(name@) < d {
            assert(x@[d as int] == '.');
        }
    }
    let ext = name.substring_char(d + 1, x.len());
    if !str_equal(ext, "json") {
        return None;
    }
    let stem = name.substring_char(0, d);
    Some(stem.to_owned())
}

proof fn lemma_sorted_insert(s: Seq<Seq<char>>, pos: int, x: Seq<char>)
    requires
        is_sorted(s),
        0 <= pos <= s.len(),
        forall|k: int| 0 <= k < pos ==> chars_le(#[trigger] s[k], x),
        forall|k: int| pos <= k < s.len() ==> !chars_le(#[trigger] s[k], x),
    ensures
        is_sorted(s.insert(pos, x)),
{
    let t = s.insert(pos, x);
    assert forall|i: int, j: int| 0 <= i < j < t.len() implies chars_le(#[trigger] t[i], #[trigger] t[j]) by {
        if j < pos {
            assert(t[i] == s[i] && t[j] == s[j]);
        } else if j == pos {
            assert(t[i] == s[i]);
        } else if i == pos {
            assert(t[j] == s[j - 1]);
            lemma_chars_le_total(s[j - 1], x);
        } else if i < pos {
            assert(t[i] == s[i] && t[j] == s[j - 1]);
        } else {
            assert(t[i] == s[i - 1] && t[j] == s[j - 1]);
        }
    }
}

/// The names of the workflows among the files `file_names` of the workflow
/// directory: the stems of the `.json` files, sorted.
pub fn workflow_names(file_names: &Vec<String>) -> (r: Vec<String>)
    ensures
        is_sorted(string_views(r@)),
        string_views(r@).to_multiset() == json_stems(string_views(file_names@)).to_multiset(),
{
    let mut names: Vec<String> = Vec::new();
    let mut i: usize = 0;
    assert(string_views(file_names@.subrange(0, 0)) =~= Seq::empty());
    assert(string_views(names@) =~= Seq::empty());
    while i < file_names.len()
        invariant
            0 <= i <= file_names@.len(),
            is_sorted(string_views(names@)),
            string_views(names@).to_multiset() == json_stems(string_views(file_names@.subrange(0, i as int))).to_multiset(),
        decreases file_names@.len() - i,
    {
        let ghost before = names@;
        assert(string_views(file_names@.subrange(0, i + 1)).drop_last() =~= string_views(file_names@.subrange(0, i as int)));
        assert(string_views(file_names@.subrange(0, i + 1)).last() == file_names@[i as int]@);
        match json_file_stem(file_names[i].as_str()) {
            Some(stem) => {
                let mut pos: usize = 0;
                while pos < names.len() && str_le(names[pos].as_str(), stem.as_str())
                    invariant
                        names@ == before,
                        0 <= pos <= names@.len(),
                        forall|k: int| 0 <= k < pos ==> chars_le(#[trigger] string_views(names@)[k], stem@),
                    decreases names@.len() - pos,
                {
                    pos = pos + 1;
                }
                proof {
                    if pos < names@.len() {
                        assert forall|k: int| pos <= k < names@.len() implies !chars_le(#[trigger] string_views(names@)[k], stem@) by {
                            if chars_le(string_views(names@)[k], stem@) {
                                lemma_chars_le_transitive(string_views(names@)[pos as int], string_views(names@)[k], stem@);
                            }
                        }
                    }
                    lemma_sorted_insert(string_views(names@), pos as int, stem@);
                }
                let ghost stem_view = stem@;
                names.insert(pos, stem);
                assert(string_views(names@) =~= string_views(before).insert(pos as int, stem_view));
            },
            None => {},
        }
        assert(string_views(file_names@.subrange(0, i + 1)) =~= string_views(file_names@.subrange(0, i as int)).push(file_names@[i as int]@));
        i = i + 1;
    }
    assert(file_names@.subrange(0, i as int) =~= file_names@);
    names
}

/// Whether the members of a workflow object, read in order, show the API
/// format: the first member that is not `extra`, `version` or `config`
/// and either has both `class_type` and `inputs`, or is named `nodes`,
/// decides (a node definition means API format, `nodes` means the web
/// format).
pub open spec fn api_format_members(m: Seq<(Seq<char>, JsonValue)>) -> bool
    decreases m.len(),
{
    if m.len() == 0 {
        false
    } else {
        let key = m[0].0;
        let node = m[0].1;
        if key == "extra"@ || key == "version"@ || key == "config"@ {
            api_format_members(m.drop_first())
        } else if node.get("class_type"@) is Some && node.get("inputs"@) is Some {
            true
        } else if key == "nodes"@ {
            false
        } else {
            api_format_members(m.drop_first())
        }
    }
}

/// The workflow is in the server's API format (an object mapping node ids
/// to objects with `class_type` and `inputs`).
pub open spec fn is_api_workflow(w: JsonValue) -> bool {
    match w {
        JsonValue::Object(m) => api_format_members(m),
        _ => false,
    }
}

/// Checks if a JSON value is in ComfyUI API format (object with string node IDs
/// mapping to objects with "class_type" and "inputs").
pub fn is_api_format(workflow: &Json) -> (r: bool)
    ensures
        r == is_api_workflow(workflow@),
{
    match workflow {
        Json::Object(members) => {
            let ghost m = members_view(members@);
            assert(workflow@ == JsonValue::Object(m));
            let mut i: usize = 0;
            assert(m.skip(0) =~= m);
            while i < members.len()
                invariant
                    0 <= i <= members@.len(),
                    m == members_view(members@),
                    m.len() == members@.len(),
                    is_api_workflow(workflow@) == api_format_members(m.skip(i as int)),
                decreases members@.len() - i,
            {
                let key = members[i].0.as_str();
                let node = &members[i].1;
                assert(m[i as int] == (key@, node@));
                assert(m.skip(i as int)[0] == m[i as int]);
                assert(m.skip(i as int).drop_first() =~= m.skip(i + 1));
                if str_equal(key, "extra") || str_equal(key, "version") || str_equal(key, "config") {
                    i = i + 1;
                    continue ;
                }
                if node.get("class_type").is_some() && node.get("inputs").is_some() {
                    return true;
                }
                if str_equal(key, "nodes") {
                    return false;
                }
                i = i + 1;
            }
            assert(m.skip(i as int) =~= Seq::<(Seq<char>, JsonValue)>::empty());
            false
        },
        _ => false,
    }
}

/// The `class_type` of a node, when it is a string.
pub open spec fn class_type_of(node: JsonValue) -> Option<Seq<char>> {
    match node.get("class_type"@) {
        Some(v) => v.as_str(),
        None => None,
    }
}

/// The `class_type` of a node, when it is a string.
pub fn node_class_type(node: &Json) -> (r: Option<&String>)
    ensures
        match r {
            Some(s) => class_type_of(node@) == Some(s@),
            None => class_type_of(node@) is None,
        },
{
    match node.get("class_type") {
        Some(v) => v.as_str(),
        None => None,
    }
}

/// A class type that names a subgraph: 36 bytes long with four hyphens,
/// the shape of a UUID.
pub open spec fn is_subgraph_type(t: Seq<char>) -> bool {
    vstd::utf8::encode_utf8(t).len() == 36 && char_count(t, '-') == 4
}

/// Index of the first member whose node has a subgraph class type, or
/// the number of members when none has.
pub open spec fn first_subgraph(m: Seq<(Seq<char>, JsonValue)>) -> int
    decreases m.len(),
{
    if m.len() == 0 {
        0
    } else if class_type_of(m[0].1) matches Some(t) && is_subgraph_type(t) {
        0
    } else {
        1 + first_subgraph(m.drop_first())
    }
}

/// A node of the workflow whose class type is a subgraph reference.
pub struct SubgraphNode {
    pub node_id: String,
    pub class_type: String,
}

/// What the validation of workflow `w` yields: `Ok` unless some node has a
/// subgraph class type, else the first such node's id and class type.
pub open spec fn subgraph_check(w: JsonValue, r: Result<(), SubgraphNode>) -> bool {
    match w {
        JsonValue::Object(m) => {
            let i = first_subgraph(m);
            if i < m.len() {
                r matches Err(e) && e.node_id@ == m[i].0 && class_type_of(m[i].1) == Some(e.class_type@)
            } else {
                r is Ok
            }
        },
        _ => r is Ok,
    }
}

proof fn lemma_first_subgraph(m: Seq<(Seq<char>, JsonValue)>, i: int)
    requires
        0 <= i <= m.len(),
        forall|j: int| 0 <= j < i ==> !(class_type_of(#[trigger] m[j].1) matches Some(t) && is_subgraph_type(t)),
    ensures
        first_subgraph(m) == i + first_subgraph(m.skip(i)),
    decreases i,
{
    if i > 0 {
        assert forall|j: int| 0 <= j < i - 1 implies !(class_type_of(#[trigger] m.drop_first()[j].1) matches Some(t) && is_subgraph_type(t)) by {
            assert(m.drop_first()[j] == m[j + 1]);
        }
        lemma_first_subgraph(m.drop_first(), i - 1);
        assert(m.drop_first().skip(i - 1) =~= m.skip(i));
    } else {
        assert(m.skip(0) =~= m);
    }
}

/// Validates that an API-format workflow doesn't contain subgraph UUIDs as class_types.
pub fn validate_api_workflow(workflow: &Json) -> (r: Result<(), SubgraphNode>)
    ensures
        subgraph_check(workflow@, r),
{
    match workflow {
        Json::Object(members) => {
            let ghost m = members_view(members@);
            assert(workflow@ == JsonValue::Object(m));
            let mut i: usize = 0;
            while i < members.len()
                invariant
                    0 <= i <= members@.len(),
                    m == members_view(members@),
                    workflow@ == JsonValue::Object(m),
                    m.len() == members@.len(),
                    forall|j: int| 0 <= j < i ==> !(class_type_of(#[trigger] m[j].1) matches Some(t) && is_subgraph_type(t)),
                decreases members@.len() - i,
            {
                assert(m[i as int] == (members@[i as int].0@, members@[i as int].1@));
                match node_class_type(&members[i].1) {
                    Some(class_type) => {
                        if class_type.as_str().as_bytes().len() == 36 && count_char(class_type.as_str(), '-') == 4 {
                            proof {
                                lemma_first_subgraph(m, i as int);
                                assert(m.skip(i as int)[0] == m[i as int]);
                                assert(is_subgraph_type(class_type@));
                                assert(first_subgraph(m.skip(i as int)) == 0);
                            }
                            let node_id = members[i].0.clone();
                            let class_type = class_type.clone();
                            assert(node_id@ == m[i as int].0);
                            assert(class_type_of(m[i as int].1) == Some(class_type@));
                            assert(first_subgraph(m) == i);
                            return Err(SubgraphNode { node_id, class_type });
                        }
                    },
                    None => {},
                }
                i = i + 1;
            }
            proof {
                lemma_first_subgraph(m, i as int);
                assert(m.skip(i as int) =~= Seq::<(Seq<char>, JsonValue)>::empty());
            }
            Ok(())
        },
        _ => Ok(()),
    }
}

/// A prompt text that reads as a negative prompt.
pub open spec fn is_negative_prompt(text: Seq<char>) -> bool {
    ||| has_substring(text, "bad"@)
    ||| has_substring(text, "ugly"@)
    ||| has_substring(text, "worst"@)
    ||| has_substring(text, "negative"@)
}

/// The current `text` input of a node's inputs (the empty text when it is
/// not a string) reads as a negative prompt.
pub open spec fn has_negative_text(inputs: JsonValue) -> bool {
    match inputs.get("text"@) {
        Some(t) => is_negative_prompt(
            match t.as_str() {
                Some(s) => s,
                None => Seq::empty(),
            },
        ),
        None => false,
    }
}

/// A `CLIPTextEncode` node with inputs that do not hold a negative prompt:
/// where the prompt goes first.
pub open spec fn is_prompt_node(node: JsonValue) -> bool {
    &&& class_type_of(node) == Some("CLIPTextEncode"@)
    &&& node.get("inputs"@) matches Some(inputs)
    &&& !has_negative_text(inputs)
}

/// A `PrimitiveStringMultiline` or `PrimitiveString` node with inputs:
/// where the prompt goes when no prompt node exists.
pub open spec fn is_string_node(node: JsonValue) -> bool {
    &&& (class_type_of(node) == Some("PrimitiveStringMultiline"@) || class_type_of(node) == Some(
        "PrimitiveString"@,
    ))
    &&& node.get("inputs"@) is Some
}

/// Index of the first member whose node is a prompt node, or the number of
/// members.
pub open spec fn first_prompt_node(m: Seq<(Seq<char>, JsonValue)>) -> int
    decreases m.len(),
{
    if m.len() == 0 {
        0
    } else if is_prompt_node(m[0].1) {
        0
    } else {
        1 + first_prompt_node(m.drop_first())
    }
}

/// A node (of any class) whose inputs hold a `text` member that does not
/// read as a negative prompt: where the prompt goes when no prompt node
/// exists.
pub open spec fn is_text_node(node: JsonValue) -> bool {
    &&& node.get("inputs"@) matches Some(inputs)
    &&& inputs.get("text"@) is Some
    &&& !has_negative_text(inputs)
}

/// Index of the first member whose node is a text node, or the number of
/// members.
pub open spec fn first_text_node(m: Seq<(Seq<char>, JsonValue)>) -> int
    decreases m.len(),
{
    if m.len() == 0 {
        0
    } else if is_text_node(m[0].1) {
        0
    } else {
        1 + first_text_node(m.drop_first())
    }
}

/// Index of the first member whose node is a string node, or the number of
/// members.
pub open spec fn first_string_node(m: Seq<(Seq<char>, JsonValue)>) -> int
    decreases m.len(),
{
    if m.len() == 0 {
        0
    } else if is_string_node(m[0].1) {
        0
    } else {
        1 + first_string_node(m.drop_first())
    }
}

/// The node with member `key` of its `inputs` object set to `value`; the
/// node is unchanged when its inputs are missing or not an object.
pub open spec fn set_input(node: JsonValue, key: Seq<char>, value: JsonValue) -> JsonValue {
    match node {
        JsonValue::Object(m) => {
            let j = key_index(m, "inputs"@);
            if j < m.len() {
                match m[j].1 {
                    JsonValue::Object(im) => JsonValue::Object(
                        m.update(j, (m[j].0, JsonValue::Object(insert_member(im, key, value)))),
                    ),
                    _ => node,
                }
            } else {
                node
            }
        },
        _ => node,
    }
}

/// The workflow with `prompt` injected: as the `text` input of the first
/// prompt node; else as the `text` input of the first node of any class
/// with a (non-negative) `text` input; else as the `value` input of the
/// first string node. A workflow with none of these is unchanged.
pub open spec fn with_prompt(w: JsonValue, prompt: Seq<char>) -> JsonValue {
    match w {
        JsonValue::Object(m) => {
            let i = first_prompt_node(m);
            if i < m.len() {
                JsonValue::Object(m.update(i, (m[i].0, set_input(m[i].1, "text"@, JsonValue::Str(prompt)))))
            } else {
                let j = first_text_node(m);
                if j < m.len() {
                    JsonValue::Object(m.update(j, (m[j].0, set_input(m[j].1, "text"@, JsonValue::Str(prompt)))))
                } else {
                    let k = first_string_node(m);
                    if k < m.len() {
                        JsonValue::Object(
                            m.update(k, (m[k].0, set_input(m[k].1, "value"@, JsonValue::Str(prompt)))),
                        )
                    } else {
                        w
                    }
                }
            }
        },
        _ => w,
    }
}

/// Whether `node` is a prompt node.
pub fn prompt_node(node: &Json) -> (r: bool)
    ensures
        r == is_prompt_node(node@),
{
    match node_class_type(node) {
        Some(class_type) => {
            if !str_equal(class_type.as_str(), "CLIPTextEncode") {
                return false;
            }
        },
        None => {
            return false;
        },
    }
    match node.get("inputs") {
        Some(inputs) => {
            match inputs.get("text") {
                Some(text_val) => {
                    let current: &str = match text_val.as_str() {
                        Some(s) => s.as_str(),
                        None => "",
                    };
                    proof {
                        reveal_strlit("");
                    }
                    assert(current@ == (match text_val@.as_str() {
                        Some(s) => s,
                        None => Seq::<char>::empty(),
                    }));
                    !(contains_str(current, "bad") || contains_str(current, "ugly") || contains_str(
                        current,
                        "worst",
                    ) || contains_str(current, "negative"))
                },
                None => true,
            }
        },
        None => false,
    }
}

/// Whether `node` is a text node.
pub fn text_node(node: &Json) -> (r: bool)
    ensures
        r == is_text_node(node@),
{
    match node.get("inputs") {
        Some(inputs) => {
            match inputs.get("text") {
                Some(text_val) => {
                    let current: &str = match text_val.as_str() {
                        Some(s) => s.as_str(),
                        None => "",
                    };
                    proof {
                        reveal_strlit("");
                    }
                    assert(current@ == (match text_val@.as_str() {
                        Some(s) => s,
                        None => Seq::<char>::empty(),
                    }));
                    !(contains_str(current, "bad") || contains_str(current, "ugly") || contains_str(
                        current,
                        "worst",
                    ) || contains_str(current, "negative"))
                },
                None => false,
            }
        },
        None => false,
    }
}

proof fn lemma_first_text_node(m: Seq<(Seq<char>, JsonValue)>, i: int)
    requires
        0 <= i <= m.len(),
        forall|j: int| 0 <= j < i ==> !is_text_node(#[trigger] m[j].1),
    ensures
        first_text_node(m) == i + first_text_node(m.skip(i)),
        0 <= first_text_node(m) <= m.len(),
    decreases m.len(),
{
    if m.len() > 0 && !is_text_node(m[0].1) {
        assert forall|j: int| 0 <= j < i - 1 implies !is_text_node(#[trigger] m.drop_first()[j].1) by {
            assert(m.drop_first()[j] == m[j + 1]);
        }
        if i > 0 {
            lemma_first_text_node(m.drop_first(), i - 1);
            assert(m.drop_first().skip(i - 1) =~= m.skip(i));
        } else {
            lemma_first_text_node(m.drop_first(), 0);
            assert(m.skip(0) =~= m);
        }
    } else {
        assert(m.skip(0) =~= m);
    }
}

/// Whether `node` is a string node.
pub fn string_node(node: &Json) -> (r: bool)
    ensures
        r == is_string_node(node@),
{
    match node_class_type(node) {
        Some(class_type) => {
            (str_equal(class_type.as_str(), "PrimitiveStringMultiline") || str_equal(
                class_type.as_str(),
                "PrimitiveString",
            )) && node.get("inputs").is_some()
        },
        None => false,
    }
}

proof fn lemma_first_prompt_node(m: Seq<(Seq<char>, JsonValue)>, i: int)
    requires
        0 <= i <= m.len(),
        forall|j: int| 0 <= j < i ==> !is_prompt_node(#[trigger] m[j].1),
    ensures
        first_prompt_node(m) == i + first_prompt_node(m.skip(i)),
        0 <= first_prompt_node(m) <= m.len(),
    decreases m.len(),
{
    if m.len() > 0 && !is_prompt_node(m[0].1) {
        assert forall|j: int| 0 <= j < i - 1 implies !is_prompt_node(#[trigger] m.drop_first()[j].1) by {
            assert(m.drop_first()[j] == m[j + 1]);
        }
        if i > 0 {
            lemma_first_prompt_node(m.drop_first(), i - 1);
            assert(m.drop_first().skip(i - 1) =~= m.skip(i));
        } else {
            lemma_first_prompt_node(m.drop_first(), 0);
            assert(m.skip(0) =~= m);
        }
    } else {
        assert(m.skip(0) =~= m);
    }
}

proof fn lemma_first_string_node(m: Seq<(Seq<char>, JsonValue)>, i: int)
    requires
        0 <= i <= m.len(),
        forall|j: int| 0 <= j < i ==> !is_string_node(#[trigger] m[j].1),
    ensures
        first_string_node(m) == i + first_string_node(m.skip(i)),
        0 <= first_string_node(m) <= m.len(),
    decreases m.len(),
{
    if m.len() > 0 && !is_string_node(m[0].1) {
        assert forall|j: int| 0 <= j < i - 1 implies !is_string_node(#[trigger] m.drop_first()[j].1) by {
            assert(m.drop_first()[j] == m[j + 1]);
        }
        if i > 0 {
            lemma_first_string_node(m.drop_first(), i - 1);
            assert(m.drop_first().skip(i - 1) =~= m.skip(i));
        } else {
            lemma_first_string_node(m.drop_first(), 0);
            assert(m.skip(0) =~= m);
        }
    } else {
        assert(m.skip(0) =~= m);
    }
}

/// Sets member `key` of the `inputs` object of `node` to `value`.
pub fn set_node_input(node: &mut Json, key: &str, value: Json)
    ensures
        final(node)@ == set_input(old(node)@, key@, value@),
{
    let mut taken = Json::Null;
    std::mem::swap(&mut taken, node);
    match taken {
        Json::Object(mut members) => {
            let ghost m = members_view(members@);
            assert(old(node)@ == JsonValue::Object(m));
            proof {
                lemma_key_index(m, "inputs"@);
            }
            let j = member_index(&members, "inputs");
            if j < members.len() {
                let ghost old_members = members@;
                assert(m[j as int] == (members@[j as int].0@, members@[j as int].1@));
                let (name, mut inputs) = members.remove(j);
                let ghost value_view = value@;
                inputs.set_member(key, value);
                members.insert(j, (name, inputs));
                proof {
                    assert(members@ =~= old_members.update(j as int, members@[j as int]));
                    assert(members_view(members@) =~= m.update(j as int, (members@[j as int].0@, members@[j as int].1@)));
                    match m[j as int].1 {
                        JsonValue::Object(im) => {
                            assert(members@[j as int].1@ == JsonValue::Object(insert_member(im, key@, value_view)));
                        },
                        _ => {
                            assert(members@[j as int].1@ == m[j as int].1);
                            assert(m.update(j as int, (members@[j as int].0@, members@[j as int].1@)) =~= m);
                        },
                    }
                }
            }
            *node = Json::Object(members);
        },
        other => {
            *node = other;
        },
    }
}

/// Injects a text prompt into an API-format workflow by finding CLIPTextEncode nodes
/// or any node with a "text" input, skipping negative prompts; a primitive
/// string node takes it as its "value" when no such node exists.
pub fn inject_prompt(api_workflow: &mut Json, prompt_text: &str)
    ensures
        final(api_workflow)@ == with_prompt(old(api_workflow)@, prompt_text@),
{
    let mut taken = Json::Null;
    std::mem::swap(&mut taken, api_workflow);
    match taken {
        Json::Object(mut members) => {
            let ghost m = members_view(members@);
            assert(old(api_workflow)@ == JsonValue::Object(m));
            // First pass: look for CLIPTextEncode nodes (positive prompt).
            let mut i: usize = 0;
            while i < members.len() && !prompt_node(&members[i].1)
                invariant
                    0 <= i <= members@.len(),
                    m == members_view(members@),
                    m.len() == members@.len(),
                    forall|j: int| 0 <= j < i ==> !is_prompt_node(#[trigger] m[j].1),
                decreases members@.len() - i,
            {
                assert(m[i as int] == (members@[i as int].0@, members@[i as int].1@));
                i = i + 1;
            }
            proof {
                lemma_first_prompt_node(m, i as int);
            }
            if i < members.len() {
                assert(m.skip(i as int)[0] == m[i as int]);
                assert(m[i as int] == (members@[i as int].0@, members@[i as int].1@));
                assert(first_prompt_node(m) == i);
                let ghost old_members = members@;
                let (name, mut node) = members.remove(i);
                set_node_input(&mut node, "text", Json::Str(prompt_text.to_owned()));
                members.insert(i, (name, node));
                proof {
                    assert(members@ =~= old_members.update(i as int, members@[i as int]));
                    assert(members_view(members@) =~= m.update(i as int, (members@[i as int].0@, members@[i as int].1@)));
                }
                *api_workflow = Json::Object(members);
                return ;
            }
            // Second pass: any node with a "text" input.
            let mut j: usize = 0;
            while j < members.len() && !text_node(&members[j].1)
                invariant
                    0 <= j <= members@.len(),
                    m == members_view(members@),
                    m.len() == members@.len(),
                    forall|l: int| 0 <= l < j ==> !is_text_node(#[trigger] m[l].1),
                decreases members@.len() - j,
            {
                assert(m[j as int] == (members@[j as int].0@, members@[j as int].1@));
                j = j + 1;
            }
            proof {
                lemma_first_text_node(m, j as int);
            }
            if j < members.len() {
                assert(m.skip(j as int)[0] == m[j as int]);
                assert(m[j as int] == (members@[j as int].0@, members@[j as int].1@));
                assert(first_text_node(m) == j);
                let ghost old_members = members@;
                let (name, mut node) = members.remove(j);
                set_node_input(&mut node, "text", Json::Str(prompt_text.to_owned()));
                members.insert(j, (name, node));
                proof {
                    assert(members@ =~= old_members.update(j as int, members@[j as int]));
                    assert(members_view(members@) =~= m.update(j as int, (members@[j as int].0@, members@[j as int].1@)));
                }
                *api_workflow = Json::Object(members);
                return ;
            }
            // Third pass: look for PrimitiveStringMultiline or PrimitiveString nodes.
            let mut k: usize = 0;
            while k < members.len() && !string_node(&members[k].1)
                invariant
                    0 <= k <= members@.len(),
                    m == members_view(members@),
                    m.len() == members@.len(),
                    forall|j: int| 0 <= j < k ==> !is_string_node(#[trigger] m[j].1),
                decreases members@.len() - k,
            {
                assert(m[k as int] == (members@[k as int].0@, members@[k as int].1@));
                k = k + 1;
            }
            proof {
                lemma_first_string_node(m, k as int);
            }
            if k < members.len() {
                assert(m.skip(k as int)[0] == m[k as int]);
                assert(m[k as int] == (members@[k as int].0@, members@[k as int].1@));
                assert(first_string_node(m) == k);
                let ghost old_members = members@;
                let (name, mut node) = members.remove(k);
                set_node_input(&mut node, "value", Json::Str(prompt_text.to_owned()));
                members.insert(k, (name, node));
                proof {
                    assert(members@ =~= old_members.update(k as int, members@[k as int]));
                    assert(members_view(members@) =~= m.update(k as int, (members@[k as int].0@, members@[k as int].1@)));
                }
            }
            *api_workflow = Json::Object(members);
        },
        other => {
            *api_workflow = other;
        },
    }
}

/// The file of a workflow always ends in `.json`, and naming the workflow
/// by its file gives the same file.
pub proof fn lemma_workflow_file_idempotent(name: Seq<char>)
    ensures
        has_suffix(workflow_file(name), ".json"@),
        workflow_file(workflow_file(name)) == workflow_file(name),
{
    let f = workflow_file(name);
    if !has_suffix(name, ".json"@) {
        assert(f.subrange(f.len() - ".json"@.len(), f.len() as int) =~= ".json"@);
    }
}

proof fn lemma_lookup_at_key_index(m: Seq<(Seq<char>, JsonValue)>, key: Seq<char>, x: JsonValue)
    requires
        key_index(m, key) < m.len(),
    ensures
        lookup(m.update(key_index(m, key), (m[key_index(m, key)].0, x)), key) == Some(x),
{
    lemma_key_index(m, key);
    let j = key_index(m, key);
    let n = m.update(j, (m[j].0, x));
    lemma_key_index(n, key);
    assert(n[j] == (m[j].0, x));
    if key_index(n, key) < j {
        assert(n[key_index(n, key)] == m[key_index(n, key)]);
    }
    assert(key_index(n, key) == j);
}

/// After injection, the prompt node (when its inputs are an object) reads
/// back the prompt as its `text` input.
pub proof fn lemma_prompt_reads_back(w: JsonValue, prompt: Seq<char>)
    requires
        w is Object,
        first_prompt_node(w->Object_0) < w->Object_0.len(),
        w->Object_0[first_prompt_node(w->Object_0)].1.get("inputs"@) matches Some(inputs) && inputs is Object,
    ensures
        ({
            let i = first_prompt_node(w->Object_0);
            with_prompt(w, prompt)->Object_0[i].1.get("inputs"@) matches Some(inputs2) && inputs2.get("text"@)
                == Some(JsonValue::Str(prompt))
        }),
{
    let m = w->Object_0;
    lemma_first_prompt_node(m, 0);
    let i = first_prompt_node(m);
    let node = m[i].1;
    assert(node is Object);
    let nm = node->Object_0;
    lemma_key_index(nm, "inputs"@);
    let j = key_index(nm, "inputs"@);
    assert(j < nm.len());
    let im = nm[j].1->Object_0;
    let x = JsonValue::Object(insert_member(im, "text"@, JsonValue::Str(prompt)));
    lemma_lookup_at_key_index(nm, "inputs"@, x);
    lemma_lookup_insert_same(im, "text"@, JsonValue::Str(prompt));
    assert(set_input(node, "text"@, JsonValue::Str(prompt)) == JsonValue::Object(nm.update(j, (nm[j].0, x))));
    assert(with_prompt(w, prompt)->Object_0[i] == (m[i].0, set_input(node, "text"@, JsonValue::Str(prompt))));
}

/// A name listed for a workflow file selects that very file, unless the
/// name itself ends in `.json` (as for a file `x.json.json`).
pub proof fn lemma_listed_name_loads_its_file(file: Seq<char>)
    requires
        json_stem(file) is Some,
        !has_suffix(json_stem(file)->Some_0, ".json"@),
    ensures
        workflow_file(json_stem(file)->Some_0) == file,
{
    reveal_strlit(".json");
    reveal_strlit("json");
    lemma_last_dot(file);
    let d = last_dot(file);
    let n = file.subrange(0, d);
    assert(file[d] == '.');
    let tail = file.subrange(d + 1, file.len() as int);
    assert(tail == "json"@);
    assert(".json"@ =~= seq!['.', 'j', 's', 'o', 'n']);
    assert("json"@ =~= seq!['j', 's', 'o', 'n']);
    assert(tail.len() == 4);
    assert(file.len() == d + 5);
    assert((n + ".json"@).len() == file.len());
    assert forall|i: int| 0 <= i < file.len() implies (n + ".json"@)[i] == file[i] by {
        if i > d {
            assert(file[i] == tail[i - d - 1]);
            assert(".json"@[i - d] == "json"@[i - d - 1]);
        }
    }
    assert(n + ".json"@ =~= file);
}

/// Two member lists with the same names, in the same order, find a name
/// at the same index.
proof fn lemma_same_names_key_index(a: Seq<(Seq<char>, JsonValue)>, b: Seq<(Seq<char>, JsonValue)>, key: Seq<char>)
    requires
        a.len() == b.len(),
        forall|t: int| 0 <= t < a.len() ==> #[trigger] a[t].0 == b[t].0,
    ensures
        key_index(a, key) == key_index(b, key),
{
    lemma_key_index(a, key);
    lemma_key_index(b, key);
    let ia = key_index(a, key);
    let ib = key_index(b, key);
    if ia < ib {
        assert(a[ia].0 == b[ia].0);
    } else if ib < ia {
        assert(a[ib].0 == b[ib].0);
    }
}

/// Replacing the value of a member leaves the lookup of other names as it
/// was.
proof fn lemma_lookup_update_other(a: Seq<(Seq<char>, JsonValue)>, j: int, x: JsonValue, key: Seq<char>)
    requires
        0 <= j < a.len(),
        a[j].0 != key,
    ensures
        lookup(a.update(j, (a[j].0, x)), key) == lookup(a, key),
{
    let b = a.update(j, (a[j].0, x));
    assert forall|t: int| 0 <= t < a.len() implies #[trigger] a[t].0 == b[t].0 by {}
    lemma_same_names_key_index(a, b, key);
    lemma_key_index(a, key);
    lemma_key_index(b, key);
    let i = key_index(a, key);
    if i < a.len() {
        assert(b[i] == a[i]);
    }
}

/// Setting a member twice to the same value is setting it once.
proof fn lemma_insert_member_twice(members: Seq<(Seq<char>, JsonValue)>, key: Seq<char>, value: JsonValue)
    ensures
        insert_member(insert_member(members, key, value), key, value) == insert_member(members, key, value),
{
    lemma_key_index(members, key);
    let t = key_index(members, key);
    let m1 = insert_member(members, key, value);
    lemma_key_index(m1, key);
    if t < members.len() {
        assert forall|u: int| 0 <= u < members.len() implies #[trigger] members[u].0 == m1[u].0 by {}
        lemma_same_names_key_index(members, m1, key);
        assert(m1.update(t, (key, value)) =~= m1);
    } else {
        let t1 = key_index(m1, key);
        if t1 < members.len() {
            assert(m1[t1] == members[t1]);
        }
        assert(m1[members.len() as int].0 == key);
        assert(t1 == members.len());
        assert(m1.update(t1, (key, value)) =~= m1);
    }
}

/// What setting an input does to a node: its `class_type` stays, its
/// inputs (when they are an object) get the member, and doing it twice is
/// doing it once.
proof fn lemma_set_input(node: JsonValue, key: Seq<char>, value: JsonValue)
    ensures
        class_type_of(set_input(node, key, value)) == class_type_of(node),
        set_input(set_input(node, key, value), key, value) == set_input(node, key, value),
        match node.get("inputs"@) {
            Some(JsonValue::Object(im)) => set_input(node, key, value).get("inputs"@) == Some(
                JsonValue::Object(insert_member(im, key, value)),
            ),
            _ => set_input(node, key, value) == node,
        },
{
    reveal_strlit("class_type");
    reveal_strlit("inputs");
    assert("class_type"@.len() != "inputs"@.len());
    match node {
        JsonValue::Object(nm) => {
            lemma_key_index(nm, "inputs"@);
            let j = key_index(nm, "inputs"@);
            if j < nm.len() {
                match nm[j].1 {
                    JsonValue::Object(im) => {
                        let x = JsonValue::Object(insert_member(im, key, value));
                        let nm1 = nm.update(j, (nm[j].0, x));
                        lemma_lookup_at_key_index(nm, "inputs"@, x);
                        assert forall|t: int| 0 <= t < nm.len() implies #[trigger] nm[t].0 == nm1[t].0 by {}
                        lemma_same_names_key_index(nm, nm1, "inputs"@);
                        lemma_lookup_update_other(nm, j, x, "class_type"@);
                        lemma_insert_member_twice(im, key, value);
                        assert(nm1[j].1 == x);
                        assert(nm1.update(j, (nm1[j].0, JsonValue::Object(insert_member(insert_member(im, key, value), key, value)))) =~= nm1);
                    },
                    _ => {},
                }
            }
        },
        _ => {},
    }
}

/// Index of the first prompt node: no earlier node is one, and the node
/// there is one.
proof fn lemma_first_prompt_node_min(m: Seq<(Seq<char>, JsonValue)>)
    ensures
        0 <= first_prompt_node(m) <= m.len(),
        forall|j: int| 0 <= j < first_prompt_node(m) ==> !is_prompt_node(#[trigger] m[j].1),
        first_prompt_node(m) < m.len() ==> is_prompt_node(m[first_prompt_node(m)].1),
    decreases m.len(),
{
    if m.len() > 0 && !is_prompt_node(m[0].1) {
        let r = m.drop_first();
        lemma_first_prompt_node_min(r);
        assert forall|j: int| 0 <= j < first_prompt_node(m) implies !is_prompt_node(#[trigger] m[j].1) by {
            if j > 0 {
                assert(m[j] == r[j - 1]);
            }
        }
        if first_prompt_node(m) < m.len() {
            assert(m[first_prompt_node(m)] == r[first_prompt_node(r)]);
        }
    }
}

/// Index of the first text node: no earlier node is one, and the node
/// there is one.
proof fn lemma_first_text_node_min(m: Seq<(Seq<char>, JsonValue)>)
    ensures
        0 <= first_text_node(m) <= m.len(),
        forall|j: int| 0 <= j < first_text_node(m) ==> !is_text_node(#[trigger] m[j].1),
        first_text_node(m) < m.len() ==> is_text_node(m[first_text_node(m)].1),
    decreases m.len(),
{
    if m.len() > 0 && !is_text_node(m[0].1) {
        let r = m.drop_first();
        lemma_first_text_node_min(r);
        assert forall|j: int| 0 <= j < first_text_node(m) implies !is_text_node(#[trigger] m[j].1) by {
            if j > 0 {
                assert(m[j] == r[j - 1]);
            }
        }
        if first_text_node(m) < m.len() {
            assert(m[first_text_node(m)] == r[first_text_node(r)]);
        }
    }
}

/// Index of the first string node: no earlier node is one, and the node
/// there is one.
proof fn lemma_first_string_node_min(m: Seq<(Seq<char>, JsonValue)>)
    ensures
        0 <= first_string_node(m) <= m.len(),
        forall|j: int| 0 <= j < first_string_node(m) ==> !is_string_node(#[trigger] m[j].1),
        first_string_node(m) < m.len() ==> is_string_node(m[first_string_node(m)].1),
    decreases m.len(),
{
    if m.len() > 0 && !is_string_node(m[0].1) {
        let r = m.drop_first();
        lemma_first_string_node_min(r);
        assert forall|j: int| 0 <= j < first_string_node(m) implies !is_string_node(#[trigger] m[j].1) by {
            if j > 0 {
                assert(m[j] == r[j - 1]);
            }
        }
        if first_string_node(m) < m.len() {
            assert(m[first_string_node(m)] == r[first_string_node(r)]);
        }
    }
}

/// Writing a non-negative prompt as the `text` input of a node whose
/// inputs are an object makes it a text node, and a prompt node exactly
/// when its class is `CLIPTextEncode`.
proof fn lemma_set_text_input(node: JsonValue, prompt: Seq<char>)
    requires
        !is_negative_prompt(prompt),
        node.get("inputs"@) matches Some(JsonValue::Object(_)),
    ensures
        is_text_node(set_input(node, "text"@, JsonValue::Str(prompt))),
        is_prompt_node(set_input(node, "text"@, JsonValue::Str(prompt))) == (class_type_of(node) == Some(
            "CLIPTextEncode"@,
        )),
{
    lemma_set_input(node, "text"@, JsonValue::Str(prompt));
    match node.get("inputs"@) {
        Some(JsonValue::Object(im)) => {
            lemma_lookup_insert_same(im, "text"@, JsonValue::Str(prompt));
        },
        _ => {},
    }
}

/// Setting an input other than `text` changes none of the kinds of node
/// that the prompt looks for.
proof fn lemma_set_other_input(node: JsonValue, key: Seq<char>, value: JsonValue)
    requires
        key != "text"@,
    ensures
        is_prompt_node(set_input(node, key, value)) == is_prompt_node(node),
        is_text_node(set_input(node, key, value)) == is_text_node(node),
        is_string_node(set_input(node, key, value)) == is_string_node(node),
{
    lemma_set_input(node, key, value);
    match node.get("inputs"@) {
        Some(JsonValue::Object(im)) => {
            lemma_lookup_insert_other(im, key, value, "text"@);
        },
        _ => {},
    }
}

/// Injecting a prompt that does not read as a negative prompt a second
/// time changes nothing: the second injection finds the node the first
/// one wrote and writes the same text again.
pub proof fn lemma_inject_prompt_twice(w: JsonValue, prompt: Seq<char>)
    requires
        !is_negative_prompt(prompt),
    ensures
        with_prompt(with_prompt(w, prompt), prompt) == with_prompt(w, prompt),
{
    reveal_strlit("text");
    reveal_strlit("value");
    assert("text"@.len() != "value"@.len());
    match w {
        JsonValue::Object(m) => {
            let sp = JsonValue::Str(prompt);
            lemma_first_prompt_node_min(m);
            let i = first_prompt_node(m);
            if i < m.len() {
                let n1 = set_input(m[i].1, "text"@, sp);
                let m1 = m.update(i, (m[i].0, n1));
                lemma_set_input(m[i].1, "text"@, sp);
                if m[i].1.get("inputs"@) matches Some(JsonValue::Object(_)) {
                    lemma_set_text_input(m[i].1, prompt);
                }
                assert(is_prompt_node(n1));
                lemma_first_prompt_node_min(m1);
                assert forall|t: int| 0 <= t < i implies !is_prompt_node(#[trigger] m1[t].1) by {
                    assert(m1[t] == m[t]);
                }
                assert(first_prompt_node(m1) == i);
                assert(m1.update(i, (m1[i].0, set_input(m1[i].1, "text"@, sp))) =~= m1);
            } else {
                lemma_first_text_node_min(m);
                let j = first_text_node(m);
                if j < m.len() {
                    let n1 = set_input(m[j].1, "text"@, sp);
                    let m1 = m.update(j, (m[j].0, n1));
                    lemma_set_input(m[j].1, "text"@, sp);
                    lemma_set_text_input(m[j].1, prompt);
                    assert(!is_prompt_node(m[j].1));
                    assert(!is_prompt_node(n1));
                    lemma_first_prompt_node_min(m1);
                    assert forall|t: int| 0 <= t < m1.len() implies !is_prompt_node(#[trigger] m1[t].1) by {
                        if t != j {
                            assert(m1[t] == m[t]);
                        }
                    }
                    assert(first_prompt_node(m1) == m1.len());
                    lemma_first_text_node_min(m1);
                    assert forall|t: int| 0 <= t < j implies !is_text_node(#[trigger] m1[t].1) by {
                        assert(m1[t] == m[t]);
                    }
                    assert(first_text_node(m1) == j);
                    assert(m1.update(j, (m1[j].0, set_input(m1[j].1, "text"@, sp))) =~= m1);
                } else {
                    lemma_first_string_node_min(m);
                    let k = first_string_node(m);
                    if k < m.len() {
                        let n1 = set_input(m[k].1, "value"@, sp);
                        let m1 = m.update(k, (m[k].0, n1));
                        lemma_set_input(m[k].1, "value"@, sp);
                        lemma_set_other_input(m[k].1, "value"@, sp);
                        assert(!is_prompt_node(m[k].1));
                        assert(!is_text_node(m[k].1));
                        lemma_first_prompt_node_min(m1);
                        assert forall|t: int| 0 <= t < m1.len() implies !is_prompt_node(#[trigger] m1[t].1) by {
                            if t != k {
                                assert(m1[t] == m[t]);
                            }
                        }
                        assert(first_prompt_node(m1) == m1.len());
                        lemma_first_text_node_min(m1);
                        assert forall|t: int| 0 <= t < m1.len() implies !is_text_node(#[trigger] m1[t].1) by {
                            if t != k {
                                assert(m1[t] == m[t]);
                            }
                        }
                        assert(first_text_node(m1) == m1.len());
                        lemma_first_string_node_min(m1);
                        assert forall|t: int| 0 <= t < k implies !is_string_node(#[trigger] m1[t].1) by {
                            assert(m1[t] == m[t]);
                        }
                        assert(first_string_node(m1) == k);
                        assert(m1.update(k, (m1[k].0, set_input(m1[k].1, "value"@, sp))) =~= m1);
                    }
                }
            }
        },
        _ => {},
    }
}

/// Replacing the value of one member of a well-formed object by a
/// well-formed value keeps the object well-formed.
proof fn lemma_update_member_wf(m: Seq<(Seq<char>, JsonValue)>, j: int, x: JsonValue)
    requires
        json_wf(JsonValue::Object(m)),
        0 <= j < m.len(),
        json_wf(x),
    ensures
        json_wf(JsonValue::Object(m.update(j, (m[j].0, x)))),
{
    let n = m.update(j, (m[j].0, x));
    assert forall|a: int, b: int| 0 <= a < b < n.len() implies #[trigger] n[a].0 != #[trigger] n[b].0 by {
        assert(m[a].0 != m[b].0);
    }
    assert forall|t: int| 0 <= t < n.len() implies json_wf(#[trigger] n[t].1) by {
        if t != j {
            assert(json_wf(m[t].1));
        }
    }
}

/// Setting a member of a well-formed object to a well-formed value keeps
/// it well-formed.
proof fn lemma_insert_member_wf(m: Seq<(Seq<char>, JsonValue)>, key: Seq<char>, value: JsonValue)
    requires
        json_wf(JsonValue::Object(m)),
        json_wf(value),
    ensures
        json_wf(JsonValue::Object(insert_member(m, key, value))),
{
    lemma_insert_keeps_names_distinct(m, key, value);
    lemma_key_index(m, key);
    let n = insert_member(m, key, value);
    let k = key_index(m, key);
    assert forall|t: int| 0 <= t < n.len() implies json_wf(#[trigger] n[t].1) by {
        if t != k && t < m.len() {
            assert(n[t] == m[t]);
            assert(json_wf(m[t].1));
        }
    }
}

/// Injecting a prompt keeps the member names of every object distinct.
pub proof fn lemma_with_prompt_keeps_wf(w: JsonValue, prompt: Seq<char>)
    requires
        json_wf(w),
    ensures
        json_wf(with_prompt(w, prompt)),
{
    let sp = JsonValue::Str(prompt);
    match w {
        JsonValue::Object(m) => {
            lemma_first_prompt_node_min(m);
            lemma_first_text_node_min(m);
            lemma_first_string_node_min(m);
            let i = first_prompt_node(m);
            let j = first_text_node(m);
            let k = first_string_node(m);
            if i < m.len() {
                assert(json_wf(m[i].1));
                lemma_set_input_wf(m[i].1, "text"@, sp);
                lemma_update_member_wf(m, i, set_input(m[i].1, "text"@, sp));
            } else if j < m.len() {
                assert(json_wf(m[j].1));
                lemma_set_input_wf(m[j].1, "text"@, sp);
                lemma_update_member_wf(m, j, set_input(m[j].1, "text"@, sp));
            } else if k < m.len() {
                assert(json_wf(m[k].1));
                lemma_set_input_wf(m[k].1, "value"@, sp);
                lemma_update_member_wf(m, k, set_input(m[k].1, "value"@, sp));
            }
        },
        _ => {},
    }
}

/// Setting an input of a well-formed node to a well-formed value keeps
/// the node well-formed.
proof fn lemma_set_input_wf(node: JsonValue, key: Seq<char>, value: JsonValue)
    requires
        json_wf(node),
        json_wf(value),
    ensures
        json_wf(set_input(node, key, value)),
{
    match node {
        JsonValue::Object(nm) => {
            lemma_key_index(nm, "inputs"@);
            let j = key_index(nm, "inputs"@);
            if j < nm.len() {
                assert(json_wf(nm[j].1));
                match nm[j].1 {
                    JsonValue::Object(im) => {
                        lemma_insert_member_wf(im, key, value);
                        lemma_update_member_wf(nm, j, JsonValue::Object(insert_member(im, key, value)));
                    },
                    _ => {},
                }
            }
        },
        _ => {},
    }
}

} // verus!
