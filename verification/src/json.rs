//! JSON objects of plain members, one level deep or with one object inside.

use serde::de::IgnoredAny;
use serde_json::Value;
use vstd::prelude::*;
use vstd::slice::slice_subrange;

use crate::paths::copy_slice;
use crate::text::{copy_text, same, texts};

verus! {

/// A member's value. Lists, objects, and numbers that are negative, too large
/// or not whole are not told apart.
pub enum Scalar {
    Null,
    Bool(bool),
    Number(u64),
    Text(String),
    Other,
}

pub enum ScalarView {
    Null,
    Bool(bool),
    Number(u64),
    Text(Seq<char>),
    Other,
}

impl View for Scalar {
    type V = ScalarView;

    open spec fn view(&self) -> ScalarView {
        match *self {
            Scalar::Null => ScalarView::Null,
            Scalar::Bool(b) => ScalarView::Bool(b),
            Scalar::Number(n) => ScalarView::Number(n),
            Scalar::Text(t) => ScalarView::Text(t@),
            Scalar::Other => ScalarView::Other,
        }
    }
}

pub struct Member {
    pub name: String,
    pub value: Scalar,
}

/// An object inside an object.
pub struct Group {
    pub name: String,
    pub members: Vec<Member>,
}

/// The members as a map from names to values; of two with one name the later
/// counts.
pub open spec fn member_map(members: Seq<Member>) -> Map<Seq<char>, ScalarView>
    decreases members.len(),
{
    if members.len() == 0 {
        Map::empty()
    } else {
        member_map(members.drop_last()).insert(members.last().name@, members.last().value@)
    }
}

/// Whether no member is a list, an object or an unusual number.
pub open spec fn is_plain(members: Seq<Member>) -> bool {
    forall|i: int| 0 <= i < members.len() ==> (#[trigger] members[i]).value@ != ScalarView::Other
}

/// The members of the object that the JSON pointer names in the JSON text:
/// `Ok(None)` where it names no object, and an error where the text is not
/// JSON.
pub uninterp spec fn json_members(text: Seq<u8>, pointer: Seq<char>) -> Result<
    Option<Map<Seq<char>, ScalarView>>,
    Seq<char>,
>;

/// The members that were read, as a map.
pub open spec fn members_view(members: Result<Option<Vec<Member>>, String>) -> Result<
    Option<Map<Seq<char>, ScalarView>>,
    Seq<char>,
> {
    match members {
        Ok(Some(list)) => Ok(Some(member_map(list@))),
        Ok(None) => Ok(None),
        Err(error) => Err(error@),
    }
}

/// What reading an object with these members gives.
pub open spec fn an_object(members: Map<Seq<char>, ScalarView>) -> Result<
    Option<Map<Seq<char>, ScalarView>>,
    Seq<char>,
> {
    Ok(Some(members))
}

/// The members of an object that holds a group: the group is an object.
pub open spec fn document_map(members: Seq<Member>, group: Option<&Group>) -> Map<
    Seq<char>,
    ScalarView,
> {
    match group {
        Some(g) => member_map(members).insert(g.name@, ScalarView::Other),
        None => member_map(members),
    }
}

/// The items of the list that the JSON pointer names in the JSON text, where the
/// text is JSON and the pointer names a list.
pub uninterp spec fn json_items(text: Seq<u8>, pointer: Seq<char>) -> Option<Seq<ScalarView>>;

/// The items of a list, by their views.
pub open spec fn item_views(items: Seq<Scalar>) -> Seq<ScalarView> {
    items.map_values(|item: Scalar| item@)
}

/// `serde_json::from_slice` into a `Value`, then `Value::pointer` and
/// `Value::as_array`: what they give depends on the text and the pointer alone.
#[verifier::external_body]
pub(crate) fn read_items(text: &[u8], pointer: &str) -> (items: Option<Vec<Scalar>>)
    ensures
        match items {
            Some(list) => json_items(text@, pointer@) == Some(item_views(list@)),
            None => json_items(text@, pointer@) is None,
        },
{
    let value: Value = serde_json::from_slice(text).ok()?;
    let convert = |v: &Value| match v {
        Value::Null => Scalar::Null,
        Value::Bool(b) => Scalar::Bool(*b),
        Value::Number(n) => n.as_u64().map_or(Scalar::Other, Scalar::Number),
        Value::String(s) => Scalar::Text(s.clone()),
        Value::Array(_) => Scalar::Other,
        Value::Object(_) => Scalar::Other,
    };
    value.pointer(pointer)?.as_array().map(|list| list.iter().map(convert).collect())
}

/// The items of a list as members, each with the name of its place.
pub open spec fn named_items(names: Seq<Seq<char>>, items: Seq<ScalarView>) -> Map<
    Seq<char>,
    ScalarView,
>
    decreases items.len(),
{
    if items.len() == 0 {
        Map::empty()
    } else {
        named_items(names, items.drop_last()).insert(names[items.len() - 1], items.last())
    }
}

/// Gives each item of a list the name of its place.
pub fn name_items(names: &Vec<String>, items: Vec<Scalar>) -> (members: Vec<Member>)
    requires
        items@.len() == names@.len(),
    ensures
        member_map(members@) == named_items(texts(names@), item_views(items@)),
{
    let ghost all = item_views(items@);
    let mut left = items;
    let mut members: Vec<Member> = Vec::new();
    assert(all.take(0) =~= Seq::<ScalarView>::empty());
    while left.len() > 0
        invariant
            members@.len() + left@.len() == all.len(),
            all.len() == names@.len(),
            item_views(left@) == all.skip(members@.len() as int),
            member_map(members@) == named_items(texts(names@), all.take(members@.len() as int)),
        decreases left@.len(),
    {
        let ghost before = left@;
        let ghost done = members@;
        let place: usize = members.len();
        let value = left.remove(0);
        proof {
            assert(item_views(before)[0] == value@);
            assert(all.skip(done.len() as int)[0] == all[done.len() as int]);
            assert(item_views(left@) =~= item_views(before).drop_first());
            assert(all.skip(done.len() as int).drop_first() =~= all.skip(done.len() as int + 1));
            assert(all.take(done.len() as int + 1).drop_last() =~= all.take(done.len() as int));
            assert(texts(names@)[done.len() as int] == names@[done.len() as int]@);
        }
        members.push(Member { name: copy_text(names[place].as_str()), value });
        assert(members@.drop_last() =~= done);
    }
    assert(all.take(members@.len() as int) =~= all);
    members
}

/// The JSON string that a text begins with: what it stands for, and how many bytes
/// it takes with the white space before it.
pub uninterp spec fn json_string(text: Seq<u8>) -> Option<(Seq<char>, nat)>;

/// How many bytes the JSON value takes that a text begins with, with the white
/// space before it.
pub uninterp spec fn json_length(text: Seq<u8>) -> Option<nat>;

/// The first item of `serde_json::Deserializer::into_iter` over strings, with
/// `StreamDeserializer::byte_offset` behind it: both depend on the text alone, and
/// the item is none where the text does not begin with a string. A string takes at
/// least one byte and ends within the text.
#[verifier::external_body]
fn first_string(text: &[u8], from: usize) -> (found: Option<(String, usize)>)
    requires
        from <= text@.len(),
    ensures
        match found {
            Some((string, length)) => json_string(text@.skip(from as int)) == Some(
                (string@, length as nat),
            ) && 0 < length <= text@.len() - from,
            None => json_string(text@.skip(from as int)) is None,
        },
{
    let mut stream = serde_json::Deserializer::from_slice(&text[from..]).into_iter::<String>();
    let string = stream.next()?.ok()?;
    Some((string, stream.byte_offset()))
}

/// The first item of `serde_json::Deserializer::into_iter` over values of any kind,
/// with `StreamDeserializer::byte_offset` behind it: the offset depends on the text
/// alone, and there is none where the text does not begin with a value. A value
/// takes at least one byte and ends within the text.
#[verifier::external_body]
fn first_length(text: &[u8], from: usize) -> (found: Option<usize>)
    requires
        from <= text@.len(),
    ensures
        match found {
            Some(length) => json_length(text@.skip(from as int)) == Some(length as nat) && 0
                < length <= text@.len() - from,
            None => json_length(text@.skip(from as int)) is None,
        },
{
    let mut stream = serde_json::Deserializer::from_slice(&text[from..]).into_iter::<IgnoredAny>();
    stream.next()?.ok()?;
    Some(stream.byte_offset())
}

/// Whether a byte can stand between the names and the values of an object: white
/// space, a comma or a colon.
pub open spec fn is_between(byte: u8) -> bool {
    byte == 32 || byte == 9 || byte == 10 || byte == 13 || byte == 44 || byte == 58
}

/// Where the next name or value begins.
pub open spec fn past_between(text: Seq<u8>, at: int) -> int
    decreases text.len() - at,
{
    if 0 <= at < text.len() && is_between(text[at]) {
        past_between(text, at + 1)
    } else {
        at
    }
}

fn skip_between(text: &[u8], from: usize) -> (at: usize)
    requires
        from <= text@.len(),
    ensures
        at == past_between(text@, from as int),
        from <= at <= text@.len(),
{
    let mut at: usize = from;
    while at < text.len() && (text[at] == 32 || text[at] == 9 || text[at] == 10 || text[at] == 13
        || text[at] == 44 || text[at] == 58)
        invariant
            from <= at <= text@.len(),
            past_between(text@, at as int) == past_between(text@, from as int),
        decreases text@.len() - at,
    {
        at = at + 1;
    }
    at
}

/// The members of an object text behind a place in it, in their order: each name
/// and the text of each value, with all that are repeated.
pub open spec fn parts_behind(text: Seq<u8>, at: int) -> Seq<(Seq<char>, Seq<u8>)>
    decreases text.len() - at,
{
    let name = past_between(text, at);
    match json_string(text.skip(name)) {
        Some((string, n)) if at <= name && 0 < n <= text.len() - name => {
            let value = past_between(text, name + n);
            match json_length(text.skip(value)) {
                Some(m) if name + n <= value && 0 < m <= text.len() - value => seq![
                    (string, text.subrange(value, value + m)),
                ] + parts_behind(text, value + m),
                _ => seq![],
            }
        },
        _ => seq![],
    }
}

/// The members of an object text, in their order and with all that are repeated.
pub open spec fn object_parts(text: Seq<u8>) -> Seq<(Seq<char>, Seq<u8>)> {
    let brace = past_between(text, 0);
    if brace < text.len() {
        parts_behind(text, brace + 1)
    } else {
        seq![]
    }
}

/// A name and the text of its value.
pub struct Part {
    pub name: String,
    pub value: Vec<u8>,
}

pub open spec fn part_views(parts: Seq<Part>) -> Seq<(Seq<char>, Seq<u8>)> {
    parts.map_values(|part: Part| (part.name@, part.value@))
}

/// Splits an object text into its members. It is not judged whether the text is an
/// object.
pub fn split_object(text: &[u8]) -> (parts: Vec<Part>)
    ensures
        part_views(parts@) == object_parts(text@),
{
    let mut parts: Vec<Part> = Vec::new();
    let brace: usize = skip_between(text, 0);
    assert(part_views(parts@) =~= seq![]);
    let total: usize = text.len();
    if brace == total {
        return parts;
    }
    let mut at: usize = brace + 1;
    assert(part_views(parts@) + object_parts(text@) =~= object_parts(text@));
    loop
        invariant
            at <= total == text@.len(),
            object_parts(text@) == part_views(parts@) + parts_behind(text@, at as int),
        decreases text@.len() - at,
    {
        let name: usize = skip_between(text, at);
        let (string, n): (String, usize) = match first_string(text, name) {
            Some(found) => found,
            None => {
                assert(part_views(parts@) + seq![] =~= part_views(parts@));
                return parts;
            },
        };
        let value: usize = skip_between(text, name + n);
        let m: usize = match first_length(text, value) {
            Some(found) => found,
            None => {
                assert(part_views(parts@) + seq![] =~= part_views(parts@));
                return parts;
            },
        };
        let ghost done = parts@;
        let end: usize = value + m;
        parts.push(Part { name: string, value: copy_slice(slice_subrange(text, value, end)) });
        proof {
            let part = (string@, text@.subrange(value as int, end as int));
            assert(part_views(parts@) =~= part_views(done).push(part));
            assert(part_views(done).push(part) + parts_behind(text@, end as int) =~= part_views(done)
                + (seq![part] + parts_behind(text@, end as int)));
        }
        at = end;
    }
}

/// How many members have this name.
pub open spec fn name_count(parts: Seq<(Seq<char>, Seq<u8>)>, name: Seq<char>) -> nat
    decreases parts.len(),
{
    if parts.len() == 0 {
        0
    } else {
        name_count(parts.drop_last(), name) + if parts.last().0 == name {
            1nat
        } else {
            0nat
        }
    }
}

/// Whether two members have this name.
pub fn is_repeated(parts: &Vec<Part>, name: &str) -> (repeated: bool)
    ensures
        repeated == (name_count(part_views(parts@), name@) > 1),
{
    let ghost all = part_views(parts@);
    let mut found = false;
    let mut i: usize = 0;
    assert(all.take(0) =~= seq![]);
    while i < parts.len()
        invariant
            i <= parts@.len(),
            all == part_views(parts@),
            name_count(all.take(i as int), name@) == if found {
                1nat
            } else {
                0nat
            },
        decreases parts@.len() - i,
    {
        assert(all.take(i + 1).drop_last() =~= all.take(i as int));
        assert(all.take(i + 1).last() == (parts@[i as int].name@, parts@[i as int].value@));
        if same(parts[i].name.as_str(), name) {
            if found {
                proof {
                    lemma_count_grows(all, name@, i + 1);
                }
                return true;
            }
            found = true;
        }
        i = i + 1;
    }
    assert(all.take(i as int) =~= all);
    false
}

proof fn lemma_count_grows(parts: Seq<(Seq<char>, Seq<u8>)>, name: Seq<char>, n: int)
    requires
        0 <= n <= parts.len(),
    ensures
        name_count(parts.take(n), name) <= name_count(parts, name),
    decreases parts.len() - n,
{
    if n < parts.len() {
        lemma_count_grows(parts, name, n + 1);
        assert(parts.take(n + 1).drop_last() =~= parts.take(n));
    } else {
        assert(parts.take(n) =~= parts);
    }
}

/// The text of the value of the last member of this name.
pub open spec fn part_text(parts: Seq<(Seq<char>, Seq<u8>)>, name: Seq<char>) -> Seq<u8>
    decreases parts.len(),
{
    if parts.len() == 0 {
        seq![]
    } else if parts.last().0 == name {
        parts.last().1
    } else {
        part_text(parts.drop_last(), name)
    }
}

/// The text of the value of the last member of this name, which is empty where
/// there is no such member.
pub fn text_of_part(parts: &Vec<Part>, name: &str) -> (text: Vec<u8>)
    ensures
        text@ == part_text(part_views(parts@), name@),
{
    let ghost all = part_views(parts@);
    let mut i: usize = parts.len();
    assert(all.take(i as int) =~= all);
    while i > 0
        invariant
            i <= parts@.len(),
            all == part_views(parts@),
            part_text(all.take(i as int), name@) == part_text(all, name@),
        decreases i,
    {
        i = i - 1;
        assert(all.take(i + 1).drop_last() =~= all.take(i as int));
        assert(all.take(i + 1).last() == (parts@[i as int].name@, parts@[i as int].value@));
        if same(parts[i].name.as_str(), name) {
            return copy_slice(parts[i].value.as_slice());
        }
    }
    let text: Vec<u8> = Vec::new();
    assert(text@ =~= seq![]);
    text
}

/// The names of an object text's members, in their order.
pub open spec fn part_names(parts: Seq<(Seq<char>, Seq<u8>)>) -> Seq<Seq<char>> {
    parts.map_values(|part: (Seq<char>, Seq<u8>)| part.0)
}

/// Where all names differ, none is repeated.
pub proof fn lemma_distinct_names(parts: Seq<(Seq<char>, Seq<u8>)>, name: Seq<char>)
    requires
        part_names(parts).no_duplicates(),
    ensures
        name_count(parts, name) <= 1,
        !part_names(parts).contains(name) ==> name_count(parts, name) == 0,
    decreases parts.len(),
{
    if parts.len() > 0 {
        let shorter = parts.drop_last();
        assert(part_names(shorter) =~= part_names(parts).drop_last());
        lemma_distinct_names(shorter, name);
        assert(part_names(parts)[parts.len() - 1] == parts.last().0);
        if part_names(shorter).contains(name) {
            let i = choose|i: int| 0 <= i < shorter.len() && part_names(shorter)[i] == name;
            assert(part_names(parts)[i] == name);
        }
    }
}

/// Whether an object text holds a member of this name more than once.
pub open spec fn repeats(text: Seq<u8>, name: Seq<char>) -> bool {
    name_count(object_parts(text), name) > 1
}

/// `serde_json::from_slice` into a `Value`, then `Value::pointer` and
/// `Value::as_object`: what they give depends on the text and the pointer
/// alone, and the error is the one that parsing reports.
#[verifier::external_body]
pub(crate) fn read_members(text: &[u8], pointer: &str) -> (members: Result<
    Option<Vec<Member>>,
    String,
>)
    ensures
        members_view(members) == json_members(text@, pointer@),
{
    let value: Value = serde_json::from_slice(text).map_err(|e| e.to_string())?;
    let convert = |v: &Value| match v {
        Value::Null => Scalar::Null,
        Value::Bool(b) => Scalar::Bool(*b),
        Value::Number(n) => n.as_u64().map_or(Scalar::Other, Scalar::Number),
        Value::String(s) => Scalar::Text(s.clone()),
        Value::Array(_) => Scalar::Other,
        Value::Object(_) => Scalar::Other,
    };
    let object = value.pointer(pointer).and_then(|v| v.as_object());
    Ok(object.map(|o| o.iter().map(|(k, v)| Member { name: k.clone(), value: convert(v) }).collect()))
}

/// The members in order, as names and values.
pub open spec fn member_list(members: Seq<Member>) -> Seq<(Seq<char>, ScalarView)> {
    members.map_values(|m: Member| (m.name@, m.value@))
}

/// The name and the members of a group, in order.
pub open spec fn group_list(group: Option<&Group>) -> Option<
    (Seq<char>, Seq<(Seq<char>, ScalarView)>),
> {
    match group {
        Some(g) => Some((g.name@, member_list(g.members@))),
        None => None,
    }
}

/// The compact JSON text of an object with these members, in their order, and
/// with this group behind them.
pub uninterp spec fn json_object(
    members: Seq<(Seq<char>, ScalarView)>,
    group: Option<(Seq<char>, Seq<(Seq<char>, ScalarView)>)>,
) -> Seq<u8>;

/// The names of members, in their order.
pub open spec fn member_names(members: Seq<Member>) -> Seq<Seq<char>> {
    members.map_values(|m: Member| m.name@)
}

/// The names of an object's members, with its group behind them.
pub open spec fn document_names(members: Seq<Member>, group: Option<&Group>) -> Seq<Seq<char>> {
    match group {
        Some(g) => member_names(members).push(g.name@),
        None => member_names(members),
    }
}

pub proof fn lemma_names_are_listed(members: Seq<Member>)
    ensures
        member_names(members) == member_list(members).map_values(
            |m: (Seq<char>, ScalarView)| m.0,
        ),
{
    assert(member_names(members) =~= member_list(members).map_values(
        |m: (Seq<char>, ScalarView)| m.0,
    ));
}

/// Whether reading an object text gives these members back, in their order and each
/// once, with the group seen as an object from outside and as its members from
/// inside.
pub open spec fn reads_back(text: Seq<u8>, members: Seq<Member>, group: Option<&Group>) -> bool {
    &&& json_members(text, seq![]) == an_object(document_map(members, group))
    &&& part_names(object_parts(text)) == document_names(members, group)
    &&& group matches Some(g) ==> {
        &&& json_members(text, seq!['/'] + g.name@) == an_object(member_map(g.members@))
        &&& part_names(object_parts(object_parts(text).last().1)) == member_names(g.members@)
    }
}

/// `serde_json::to_vec` of the object with these members, and with the group
/// as an object inside it: reading the text gives the members back, each once. A
/// newline behind the text changes nothing of that, since white space behind a value
/// is skipped. The text depends on the members and the group alone, and it is compact
/// JSON, so it holds no newline byte. The map that is written keeps the order of
/// insertion.
#[verifier::external_body]
pub(crate) fn write_members(members: &Vec<Member>, group: Option<&Group>) -> (text: Vec<u8>)
    requires
        is_plain(members@),
        document_names(members@, group).no_duplicates(),
        group matches Some(g) ==> member_names(g.members@).no_duplicates(),
        group matches Some(g) ==> is_plain(g.members@) && !g.name@.contains('/')
            && !g.name@.contains('~'),
    ensures
        text@ == json_object(member_list(members@), group_list(group)),
        reads_back(text@, members@, group),
        reads_back(text@.push(10u8), members@, group),
        !text@.contains(10u8),
{
    let convert = |m: &Member| {
        let value = match &m.value {
            Scalar::Null | Scalar::Other => Value::Null,
            Scalar::Bool(b) => Value::Bool(*b),
            Scalar::Number(n) => Value::from(*n),
            Scalar::Text(t) => Value::String(t.clone()),
        };
        (m.name.clone(), value)
    };
    let mut object: serde_json::Map<String, Value> = members.iter().map(convert).collect();
    object.extend(group.map(|g| (g.name.clone(), g.members.iter().map(convert).collect())));
    serde_json::to_vec(&object).expect("a JSON value can be written")
}

/// Adds a member behind the others.
pub fn put(members: &mut Vec<Member>, name: &str, value: Scalar)
    requires
        is_plain(old(members)@),
        value@ != ScalarView::Other,
    ensures
        is_plain(final(members)@),
        member_map(final(members)@) == member_map(old(members)@).insert(name@, value@),
        member_list(final(members)@) == member_list(old(members)@).push((name@, value@)),
{
    let ghost before = members@;
    members.push(Member { name: copy_text(name), value });
    assert(members@.drop_last() =~= before);
    assert(member_list(members@) =~= member_list(before).push((name@, value@)));
}

/// The value of the member called `name`.
pub fn member<'a>(members: &'a Vec<Member>, name: &str) -> (value: Option<&'a Scalar>)
    ensures
        match value {
            Some(v) => member_map(members@).dom().contains(name@) && member_map(members@)[name@]
                == v@,
            None => !member_map(members@).dom().contains(name@),
        },
{
    let mut i: usize = members.len();
    assert(members@.take(i as int) =~= members@);
    while i > 0
        invariant
            i <= members@.len(),
            member_map(members@).dom().contains(name@) == member_map(
                members@.take(i as int),
            ).dom().contains(name@),
            member_map(members@.take(i as int)).dom().contains(name@) ==> member_map(
                members@,
            )[name@] == member_map(members@.take(i as int))[name@],
        decreases i,
    {
        i = i - 1;
        assert(members@.take(i + 1).drop_last() =~= members@.take(i as int));
        assert(members@.take(i + 1).last() == members@[i as int]);
        if same(members[i].name.as_str(), name) {
            return Some(&members[i].value);
        }
    }
    None
}

/// A part of a name counts once for each time that the name stands there, and the text
/// of a name is that of its last part.
pub proof fn law_parts_are_found_by_name(
    parts: Seq<(Seq<char>, Seq<u8>)>,
    name: Seq<char>,
    value: Seq<u8>,
    other: Seq<char>,
)
    requires
        other != name,
    ensures
        name_count(seq![], name) == 0,
        name_count(parts.push((name, value)), name) == name_count(parts, name) + 1,
        name_count(parts.push((other, value)), name) == name_count(parts, name),
        part_text(parts.push((name, value)), name) == value,
        part_text(parts.push((other, value)), name) == part_text(parts, name),
{
    assert(parts.push((name, value)).drop_last() =~= parts);
    assert(parts.push((other, value)).drop_last() =~= parts);
}

/// Items are named in their order: the item in each place has the name in that place,
/// where no name stands twice.
pub proof fn law_items_are_named_in_order(
    names: Seq<Seq<char>>,
    items: Seq<ScalarView>,
    i: int,
)
    requires
        names.no_duplicates(),
        0 <= i < items.len() <= names.len(),
    ensures
        named_items(names, items).dom().contains(names[i]),
        named_items(names, items)[names[i]] == items[i],
    decreases items.len(),
{
    if i < items.len() - 1 {
        law_items_are_named_in_order(names, items.drop_last(), i);
        assert(names[i] != names[items.len() - 1]);
    }
}

/// A member is known by its name, and a later one of the same name takes its place.
pub proof fn law_the_last_member_of_a_name_counts(members: Seq<Member>, more: Member, name: Seq<char>)
    ensures
        member_map(seq![]) == Map::<Seq<char>, ScalarView>::empty(),
        member_map(members.push(more)).dom().contains(more.name@),
        member_map(members.push(more))[more.name@] == more.value@,
        name != more.name@ ==> member_map(members.push(more)).dom().contains(name) == member_map(
            members,
        ).dom().contains(name),
        name != more.name@ && member_map(members).dom().contains(name) ==> member_map(
            members.push(more),
        )[name] == member_map(members)[name],
{
    assert(members.push(more).drop_last() =~= members);
}

/// Between the parts of an object stand white space, commas and colons; the first byte
/// that is none of these begins the next part.
pub proof fn law_what_stands_between_parts(text: Seq<u8>, from: int, at: int)
    requires
        0 <= from <= at <= text.len(),
        forall|k: int|
            from <= k < at ==> (#[trigger] text[k] == 32 || text[k] == 9 || text[k] == 10 || text[k]
                == 13 || text[k] == 44 || text[k] == 58),
        at < text.len() ==> !(text[at] == 32 || text[at] == 9 || text[at] == 10 || text[at] == 13
            || text[at] == 44 || text[at] == 58),
    ensures
        past_between(text, from) == at,
    decreases at - from,
{
    if from < at {
        assert(is_between(text[from]));
        law_what_stands_between_parts(text, from + 1, at);
    }
}

/// The parts of an object are read one after another: a name and the value behind it,
/// and then the parts behind that value.
pub proof fn law_parts_are_read_in_order(
    text: Seq<u8>,
    at: int,
    name: int,
    string: Seq<char>,
    n: nat,
    value: int,
    m: nat,
)
    requires
        0 <= at <= name == past_between(text, at),
        json_string(text.skip(name)) == Some((string, n)),
        0 < n <= text.len() - name,
        name + n <= value == past_between(text, name + n),
        json_length(text.skip(value)) == Some(m),
        0 < m <= text.len() - value,
    ensures
        parts_behind(text, at) == seq![(string, text.subrange(value, value + m))] + parts_behind(
            text,
            value + m,
        ),
{
}

} // verus!
