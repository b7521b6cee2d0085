use vstd::prelude::*;
use vstd::string::{StrSliceExecFns, StringExecFns};

use crate::json::{field_pos, find_field, find_str_field, lemma_field_pos, str_field, JsonValue};
use crate::model::{item_view, items_view, lemma_items_view, ActionView, EntryView, Item, ItemValue};

verus! {

broadcast use vstd::std_specs::vec::group_vec_axioms, vstd::seq::group_seq_axioms;

/// `std::io::Error`, carried opaque inside `ConfigError::Io`.
#[verifier::external_type_specification]
#[verifier::external_body]
pub struct ExIoError(std::io::Error);

/// `serde_json::Error`, carried opaque inside `ConfigError::Json`.
#[verifier::external_type_specification]
#[verifier::external_body]
pub struct ExJsonError(serde_json::Error);

/// Why a configuration could not be loaded.
#[derive(Debug)]
pub enum ConfigError {
    /// Creating, opening, reading or writing the file failed.
    Io(std::io::Error),
    /// The file is not a well-formed JSON document.
    Json(serde_json::Error),
    /// A member is missing or has the wrong JSON type.
    InvalidConfig,
    /// An item's `type` is none of `file`, `command`, `application`, `index`.
    UnknownItemType,
    /// Two entries of one list share a key.
    DuplicateKey,
}

/// The values of an item's `type` member that the decoder accepts.
pub open spec fn known_type(t: Seq<char>) -> bool {
    t == "file"@ || t == "command"@ || t == "application"@ || t == "index"@
}

/// Whether two entries of the list have the same key.
pub open spec fn has_duplicate_key(s: Seq<EntryView>) -> bool {
    exists|i: int, j: int| 0 <= i < j < s.len() && s[i].key == s[j].key
}

/// The entry that a JSON value describes, or the error that rejects it.
/// The `type` member is read first, so an unknown type is reported whatever
/// the other members hold. Only the first character of `key` counts, and an
/// `application` is decoded as a command.
pub open spec fn decode_item(j: JsonValue) -> Result<EntryView, ConfigError>
    decreases j,
{
    match j {
        JsonValue::Object(fields) => {
            let f = fields@;
            match str_field(f, "type"@) {
                None => Err(ConfigError::InvalidConfig),
                Some(t) => {
                    if !known_type(t) {
                        Err(ConfigError::UnknownItemType)
                    } else {
                        let p = field_pos(f, "value"@);
                        match (str_field(f, "key"@), str_field(f, "text"@)) {
                            (Some(k), Some(x)) => {
                                if k.len() == 0 || !(0 <= p < f.len()) {
                                    Err(ConfigError::InvalidConfig)
                                } else if t == "index"@ {
                                    match decode_items(f[p].1) {
                                        Ok(c) => Ok(
                                            EntryView { key: k[0], text: x, value: ActionView::Index(c) },
                                        ),
                                        Err(e) => Err(e),
                                    }
                                } else {
                                    match f[p].1 {
                                        JsonValue::Str(v) => Ok(
                                            EntryView {
                                                key: k[0],
                                                text: x,
                                                value: if t == "file"@ {
                                                    ActionView::File(v@)
                                                } else {
                                                    ActionView::Command(v@)
                                                },
                                            },
                                        ),
                                        _ => Err(ConfigError::InvalidConfig),
                                    }
                                }
                            },
                            _ => Err(ConfigError::InvalidConfig),
                        }
                    }
                },
            }
        },
        _ => Err(ConfigError::InvalidConfig),
    }
}

/// The entries of a JSON array, decoded in order; the first entry that fails
/// decides the error.
pub open spec fn decode_seq(s: Seq<JsonValue>) -> Result<Seq<EntryView>, ConfigError>
    decreases s,
{
    if s.len() == 0 {
        Ok(Seq::empty())
    } else {
        match decode_seq(s.subrange(0, s.len() - 1)) {
            Err(e) => Err(e),
            Ok(r) => match decode_item(s[s.len() - 1]) {
                Err(e) => Err(e),
                Ok(x) => Ok(r.push(x)),
            },
        }
    }
}

/// The sibling list that a JSON value describes, or the error that rejects it.
pub open spec fn decode_items(j: JsonValue) -> Result<Seq<EntryView>, ConfigError>
    decreases j,
{
    match j {
        JsonValue::Array(elems) => match decode_seq(elems@) {
            Err(e) => Err(e),
            Ok(r) => if has_duplicate_key(r) {
                Err(ConfigError::DuplicateKey)
            } else {
                Ok(r)
            },
        },
        _ => Err(ConfigError::InvalidConfig),
    }
}

proof fn lemma_items_view_push(s: Seq<Item>, x: Item)
    ensures
        items_view(s.push(x)) == items_view(s).push(item_view(x)),
{
    assert(items_view(s.push(x)) =~= items_view(s).push(item_view(x)));
}

/// Once a prefix of a list fails to decode, the whole list fails the same way.
proof fn lemma_decode_seq_prefix_err(s: Seq<JsonValue>, n: int)
    requires
        0 <= n <= s.len(),
        decode_seq(s.subrange(0, n)) is Err,
    ensures
        decode_seq(s) == decode_seq(s.subrange(0, n)),
    decreases s.len() - n,
{
    if n == s.len() {
        assert(s.subrange(0, n) =~= s);
    } else {
        let t = s.subrange(0, s.len() - 1);
        assert(t.subrange(0, n) =~= s.subrange(0, n));
        lemma_decode_seq_prefix_err(t, n);
    }
}

fn same_text(s: &String, lit: &str) -> (r: bool)
    ensures
        r == (s@ == lit@),
{
    *s == lit.to_owned()
}

/// Reports whether two entries of the list share a key.
pub fn items_key_duplicate(items: &Vec<Item>) -> (r: bool)
    ensures
        r == has_duplicate_key(items_view(items@)),
{
    let ghost v = items_view(items@);
    proof {
        lemma_items_view(items@);
    }
    let mut key_list: Vec<char> = Vec::with_capacity(items.len());
    let mut i: usize = 0;
    while i < items.len()
        invariant
            i <= items@.len(),
            v == items_view(items@),
            v.len() == items@.len(),
            key_list@.len() == i,
            forall|k: int| 0 <= k < i ==> key_list@[k] == v[k].key,
            forall|a: int, b: int| 0 <= a < b < i ==> v[a].key != v[b].key,
        decreases items.len() - i,
    {
        let key = items[i].key;
        proof {
            lemma_items_view(items@);
        }
        let mut j: usize = 0;
        while j < key_list.len()
            invariant
                j <= key_list@.len(),
                key_list@.len() == i,
                i < items@.len(),
                v == items_view(items@),
                v.len() == items@.len(),
                forall|k: int| 0 <= k < i ==> key_list@[k] == v[k].key,
                key == v[i as int].key,
                forall|k: int| 0 <= k < j ==> key_list@[k] != key,
            decreases key_list.len() - j,
        {
            if key_list[j] == key {
                assert(v[j as int].key == v[i as int].key);
                assert(has_duplicate_key(v));
                return true;
            }
            j += 1;
        }
        assert forall|a: int, b: int| 0 <= a < b < i + 1 implies v[a].key != v[b].key by {
            if b == i {
                assert(key_list@[a] != key);
            }
        }
        key_list.push(key);
        i += 1;
    }
    false
}

/// Decodes one entry from a JSON object.
pub fn parse_item(item: &JsonValue) -> (r: Result<Item, ConfigError>)
    ensures
        match r {
            Ok(i) => decode_item(*item) == Ok::<EntryView, ConfigError>(item_view(i)),
            Err(e) => decode_item(*item) == Err::<EntryView, ConfigError>(e),
        },
    decreases item,
{
    let fields = match item {
        JsonValue::Object(f) => f,
        _ => return Err(ConfigError::InvalidConfig),
    };
    let ty = match find_str_field(fields, "type") {
        Some(t) => t,
        None => return Err(ConfigError::InvalidConfig),
    };
    let is_file = same_text(ty, "file");
    let is_command = same_text(ty, "command");
    let is_application = same_text(ty, "application");
    let is_index = same_text(ty, "index");
    if !(is_file || is_command || is_application || is_index) {
        return Err(ConfigError::UnknownItemType);
    }
    let key_text = find_str_field(fields, "key");
    let text = find_str_field(fields, "text");
    let raw_value = find_field(fields, "value");
    proof {
        lemma_field_pos(fields@, "value"@);
    }
    let (key_text, text, raw_value) = match (key_text, text, raw_value) {
        (Some(k), Some(t), Some(v)) => (k, t, v),
        _ => return Err(ConfigError::InvalidConfig),
    };
    if key_text.as_str().unicode_len() == 0 {
        return Err(ConfigError::InvalidConfig);
    }
    let key = key_text.as_str().get_char(0);
    let value = if is_index {
        match parse_items(raw_value) {
            Ok(children) => ItemValue::Index(children),
            Err(e) => return Err(e),
        }
    } else {
        let v = match raw_value {
            JsonValue::Str(v) => v.clone(),
            _ => return Err(ConfigError::InvalidConfig),
        };
        if is_file {
            ItemValue::File(v)
        } else {
            ItemValue::Command(v)
        }
    };
    Ok(Item { key, text: text.clone(), value })
}

/// Decodes a sibling list from a JSON array, rejecting a repeated key.
pub fn parse_items(items: &JsonValue) -> (r: Result<Vec<Item>, ConfigError>)
    ensures
        match r {
            Ok(v) => decode_items(*items) == Ok::<Seq<EntryView>, ConfigError>(items_view(v@)),
            Err(e) => decode_items(*items) == Err::<Seq<EntryView>, ConfigError>(e),
        },
    decreases items,
{
    let elems = match items {
        JsonValue::Array(a) => a,
        _ => return Err(ConfigError::InvalidConfig),
    };
    let mut out: Vec<Item> = Vec::new();
    let mut i: usize = 0;
    assert(elems@.subrange(0, 0) =~= Seq::<JsonValue>::empty());
    assert(items_view(out@) =~= Seq::<EntryView>::empty());
    while i < elems.len()
        invariant
            i <= elems@.len(),
            *items == JsonValue::Array(*elems),
            decode_seq(elems@.subrange(0, i as int)) == Ok::<Seq<EntryView>, ConfigError>(
                items_view(out@),
            ),
        decreases elems.len() - i,
    {
        let ghost pre = elems@.subrange(0, i as int);
        let ghost next = elems@.subrange(0, i + 1);
        assert(next.subrange(0, next.len() - 1) =~= pre);
        assert(next[next.len() - 1] == elems@[i as int]);
        match parse_item(&elems[i]) {
            Ok(entry) => {
                proof {
                    lemma_items_view_push(out@, entry);
                }
                out.push(entry);
            },
            Err(e) => {
                proof {
                    lemma_decode_seq_prefix_err(elems@, i + 1);
                }
                return Err(e);
            },
        }
        i += 1;
    }
    assert(elems@.subrange(0, elems@.len() as int) =~= elems@);
    if items_key_duplicate(&out) {
        Err(ConfigError::DuplicateKey)
    } else {
        Ok(out)
    }
}


/// Whether the entry's submenu, if it has one, satisfies `keys_unique_tree`.
pub open spec fn entry_keys_unique(e: EntryView) -> bool
    decreases e,
{
    match e.value {
        ActionView::Index(c) => keys_unique_tree(c),
        _ => true,
    }
}

/// No list of the tree holds two entries with one key.
pub open spec fn keys_unique_tree(s: Seq<EntryView>) -> bool
    decreases s,
{
    &&& !has_duplicate_key(s)
    &&& forall|i: int| 0 <= i < s.len() ==> entry_keys_unique(#[trigger] s[i])
}


/// An entry that decodes has distinct keys within each list of its submenu tree.
pub proof fn lemma_decode_item_keys_unique(j: JsonValue)
    requires
        decode_item(j) is Ok,
    ensures
        entry_keys_unique(decode_item(j)->Ok_0),
    decreases j,
{
    if let JsonValue::Object(fields) = j {
        let f = fields@;
        lemma_field_pos(f, "value"@);
        let p = field_pos(f, "value"@);
        if 0 <= p < f.len() && decode_items(f[p].1) is Ok {
            lemma_decode_items_keys_unique(f[p].1);
        }
    }
}

/// A list that decodes has distinct keys, and so has every list below it:
/// a repeated key within any one list makes the whole decoding fail.
pub proof fn lemma_decode_items_keys_unique(j: JsonValue)
    requires
        decode_items(j) is Ok,
    ensures
        keys_unique_tree(decode_items(j)->Ok_0),
    decreases j,
{
    if let JsonValue::Array(elems) = j {
        lemma_decode_seq_keys_unique(elems@);
    }
}

pub proof fn lemma_decode_seq_keys_unique(s: Seq<JsonValue>)
    requires
        decode_seq(s) is Ok,
    ensures
        forall|i: int|
            0 <= i < decode_seq(s)->Ok_0.len() ==> entry_keys_unique(
                #[trigger] decode_seq(s)->Ok_0[i],
            ),
    decreases s,
{
    if s.len() > 0 {
        let t = s.subrange(0, s.len() - 1);
        lemma_decode_seq_keys_unique(t);
        lemma_decode_item_keys_unique(s[s.len() - 1]);
    }
}

/// A list whose own entries decode and carry distinct keys is accepted: the
/// keys of its submenus are checked in their own lists only, so a submenu may
/// reuse a key of its parent list.
pub proof fn lemma_duplicates_scoped_per_list(elems: Seq<JsonValue>, j: JsonValue)
    requires
        j matches JsonValue::Array(a) && a@ == elems,
        decode_seq(elems) is Ok,
        !has_duplicate_key(decode_seq(elems)->Ok_0),
    ensures
        decode_items(j) == Ok::<Seq<EntryView>, ConfigError>(decode_seq(elems)->Ok_0),
{
}

/// A list whose entries decode but repeat a key is rejected with `DuplicateKey`.
pub proof fn lemma_duplicate_key_rejected(elems: Seq<JsonValue>, j: JsonValue)
    requires
        j matches JsonValue::Array(a) && a@ == elems,
        decode_seq(elems) is Ok,
        has_duplicate_key(decode_seq(elems)->Ok_0),
    ensures
        decode_items(j) == Err::<Seq<EntryView>, ConfigError>(ConfigError::DuplicateKey),
{
}

/// An object whose `type` is a string outside the known set is rejected
/// with `UnknownItemType`, whatever its other members hold.
pub proof fn lemma_unknown_type_rejected(j: JsonValue)
    requires
        j matches JsonValue::Object(fields) && str_field(fields@, "type"@) matches Some(t) && !known_type(
            t,
        ),
    ensures
        decode_item(j) == Err::<EntryView, ConfigError>(ConfigError::UnknownItemType),
{
}

/// In a list, the first entry with an unknown `type` fails the whole list
/// with `UnknownItemType`.
pub proof fn lemma_unknown_type_fails_list(elems: Seq<JsonValue>, j: JsonValue, k: int)
    requires
        j matches JsonValue::Array(a) && a@ == elems,
        0 <= k < elems.len(),
        decode_seq(elems.subrange(0, k)) is Ok,
        elems[k] matches JsonValue::Object(fields) && str_field(fields@, "type"@) matches Some(t)
            && !known_type(t),
    ensures
        decode_items(j) == Err::<Seq<EntryView>, ConfigError>(ConfigError::UnknownItemType),
{
    let pre = elems.subrange(0, k + 1);
    assert(pre.subrange(0, pre.len() - 1) =~= elems.subrange(0, k));
    assert(pre[pre.len() - 1] == elems[k]);
    lemma_unknown_type_rejected(elems[k]);
    assert(decode_seq(pre) is Err);
    lemma_decode_seq_prefix_err(elems, k + 1);
}


/// The document written when no configuration file exists yet.
pub const DEFAULT_CONFIG: &'static str = "[
   {
      \"key\":\"a\",
      \"type\":\"index\",
      \"text\":\"test\",
      \"value\":[
         {
            \"key\":\"b\",
            \"type\":\"command\",
            \"text\":\"run `pwd`\",
            \"value\":\"pwd\"
         }
      ]
   }
]";

/// The user's configuration directory: the one the platform names, else
/// `.config` under the home directory; `None` when neither is known.
pub fn resolve_user_config_dir(platform_dir: Option<String>, home: Option<String>) -> (r: Option<
    String,
>)
    ensures
        match platform_dir {
            Some(d) => r matches Some(x) && x@ == d@,
            None => match home {
                Some(h) => r matches Some(x) && x@ == h@ + "/.config"@,
                None => r is None,
            },
        },
{
    match platform_dir {
        Some(d) => Some(d),
        None => match home {
            Some(h) => Some(h.concat("/.config")),
            None => None,
        },
    }
}

/// The directory that holds this launcher's configuration.
pub fn config_dir_in(user_config_dir: &str) -> (r: String)
    ensures
        r@ == user_config_dir@ + "/eihwaz"@,
{
    user_config_dir.to_owned().concat("/eihwaz")
}

/// The configuration file inside the launcher's directory.
pub fn config_file_in(config_dir: &str) -> (r: String)
    ensures
        r@ == config_dir@ + "/config.json"@,
{
    config_dir.to_owned().concat("/config.json")
}

} // verus!
