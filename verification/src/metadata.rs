use vstd::prelude::*;

verus! {

/// Whether `serde_json::from_str::<serde_json::Value>` accepts the text.
pub uninterp spec fn json_parses(text: Seq<char>) -> bool;

/// The text that `serde_json` writes for the JSON object whose members are
/// the given keys, each bound to the value `serde_json` parses from its text.
pub uninterp spec fn json_object_text(members: Seq<(Seq<char>, Seq<char>)>) -> Seq<char>;

/// `serde_json::from_str::<serde_json::Value>(text).is_ok()`.
#[verifier::external_body]
pub(crate) fn json_text_parses(text: &str) -> (ok: bool)
    ensures
        ok == json_parses(text@),
{
    serde_json::from_str::<serde_json::Value>(text).is_ok()
}

/// `(key, text)` pairs as character sequences.
pub open spec fn members_view(members: Seq<(&str, &str)>) -> Seq<(Seq<char>, Seq<char>)> {
    members.map_values(|m: (&str, &str)| (m.0@, m.1@))
}

/// Builds a `serde_json::Map` by inserting each key with the value parsed
/// from its text, and serialises `Value::Object(map)` with `to_string`. The
/// result is the named text of those members. That serde_json parses it
/// again is not claimed: wrapping a member that sits at serde_json's nesting
/// limit pushes it one level past that limit.
#[verifier::external_body]
fn json_object_from_members(members: &[(&str, &str)]) -> (text: String)
    requires
        forall|i: int| 0 <= i < members@.len() ==> json_parses(#[trigger] members@[i].1@),
    ensures
        text@ == json_object_text(members_view(members@)),
{
    let mut map = serde_json::Map::new();
    for (key, value) in members {
        let parsed = serde_json::from_str(value).unwrap_or(serde_json::Value::Null);
        map.insert(key.to_string(), parsed);
    }
    serde_json::Value::Object(map).to_string()
}

/// A text as an optional character sequence.
pub open spec fn text_view(text: Option<&str>) -> Option<Seq<char>> {
    match text {
        Some(t) => Some(t@),
        None => None,
    }
}

/// The member `(key, text)` when a text is given and is JSON, else none.
pub open spec fn json_member(key: Seq<char>, text: Option<Seq<char>>) -> Seq<(Seq<char>, Seq<char>)> {
    match text {
        Some(t) => if json_parses(t) {
            seq![(key, t)]
        } else {
            seq![]
        },
        None => seq![],
    }
}

/// The members of the metadata bundle: `config`, then `tokenizer`, each
/// present exactly when its text is given and is JSON.
pub open spec fn metadata_members(config: Option<Seq<char>>, tokenizer: Option<Seq<char>>) -> Seq<
    (Seq<char>, Seq<char>),
> {
    json_member("config"@, config) + json_member("tokenizer"@, tokenizer)
}

/// The text is given and serde_json accepts it.
pub open spec fn is_json_text(text: Option<Seq<char>>) -> bool {
    text is Some && json_parses(text.unwrap())
}

/// The members of the bundle, case by case: `config` is present exactly when
/// its text is JSON, `tokenizer` exactly when its text is JSON, each whatever
/// the other text is, and `config` comes first.
pub proof fn lemma_metadata_members(config: Option<Seq<char>>, tokenizer: Option<Seq<char>>)
    ensures
        is_json_text(config) && is_json_text(tokenizer) ==> metadata_members(config, tokenizer)
            == seq![("config"@, config.unwrap()), ("tokenizer"@, tokenizer.unwrap())],
        is_json_text(config) && !is_json_text(tokenizer) ==> metadata_members(config, tokenizer)
            == seq![("config"@, config.unwrap())],
        !is_json_text(config) && is_json_text(tokenizer) ==> metadata_members(config, tokenizer)
            == seq![("tokenizer"@, tokenizer.unwrap())],
        !is_json_text(config) && !is_json_text(tokenizer) ==> metadata_members(config, tokenizer)
            == Seq::<(Seq<char>, Seq<char>)>::empty(),
{
    let c = json_member("config"@, config);
    let t = json_member("tokenizer"@, tokenizer);
    assert(metadata_members(config, tokenizer) == c + t);
    if is_json_text(config) {
        assert(c == seq![("config"@, config.unwrap())]);
    } else {
        assert(c == Seq::<(Seq<char>, Seq<char>)>::empty());
    }
    if is_json_text(tokenizer) {
        assert(t == seq![("tokenizer"@, tokenizer.unwrap())]);
    } else {
        assert(t == Seq::<(Seq<char>, Seq<char>)>::empty());
    }
    assert(metadata_members(config, tokenizer) =~= c + t);
    if is_json_text(config) && is_json_text(tokenizer) {
        assert(c + t =~= seq![("config"@, config.unwrap()), ("tokenizer"@, tokenizer.unwrap())]);
    }
    if is_json_text(config) && !is_json_text(tokenizer) {
        assert(c + t =~= seq![("config"@, config.unwrap())]);
    }
    if !is_json_text(config) && is_json_text(tokenizer) {
        assert(c + t =~= seq![("tokenizer"@, tokenizer.unwrap())]);
    }
    if !is_json_text(config) && !is_json_text(tokenizer) {
        assert(c + t =~= Seq::<(Seq<char>, Seq<char>)>::empty());
    }
}

/// The metadata JSON embedded in a compiled file: an object holding the
/// model configuration under `config` and the tokenizer under `tokenizer`,
/// each only when its text is given and parses as JSON.
pub fn build_metadata_json(config_text: Option<&str>, tokenizer_text: Option<&str>) -> (s: String)
    ensures
        s@ == json_object_text(metadata_members(text_view(config_text), text_view(tokenizer_text))),
        ({
            let c = text_view(config_text);
            let t = text_view(tokenizer_text);
            &&& is_json_text(c) && is_json_text(t) ==> s@ == json_object_text(
                seq![("config"@, c.unwrap()), ("tokenizer"@, t.unwrap())],
            )
            &&& is_json_text(c) && !is_json_text(t) ==> s@ == json_object_text(
                seq![("config"@, c.unwrap())],
            )
            &&& !is_json_text(c) && is_json_text(t) ==> s@ == json_object_text(
                seq![("tokenizer"@, t.unwrap())],
            )
            &&& !is_json_text(c) && !is_json_text(t) ==> s@ == json_object_text(
                Seq::<(Seq<char>, Seq<char>)>::empty(),
            )
        }),
{
    proof {
        lemma_metadata_members(text_view(config_text), text_view(tokenizer_text));
    }
    let mut members: Vec<(&str, &str)> = Vec::new();
    if let Some(t) = config_text {
        if json_text_parses(t) {
            members.push(("config", t));
        }
    }
    let ghost first = members@;
    if let Some(t) = tokenizer_text {
        if json_text_parses(t) {
            members.push(("tokenizer", t));
        }
    }
    proof {
        assert(members_view(first) =~= json_member("config"@, text_view(config_text)));
        assert(members_view(members@) =~= metadata_members(
            text_view(config_text),
            text_view(tokenizer_text),
        ));
    }
    json_object_from_members(members.as_slice())
}

} // verus!
