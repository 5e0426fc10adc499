//! From the bytes of a command to its typed control keys.
use std::collections::HashMap;
use vstd::prelude::*;
use vstd::utf8;

use crate::protocol::{
    KittyAction, KittyCommand, KittyControl, KittyDelete, KittyFormat, KittyMedium, KittyOutcome,
    KittyQuery, OutcomeView,
};
use crate::text::{self, is_text, read_number};

verus! {

// ---------------------------------------------------------------------------
// What the bytes mean
// ---------------------------------------------------------------------------

/// The fields between the separators `sep`: always one more than there are
/// separators.
pub open spec fn split(s: Seq<u8>, sep: u8) -> Seq<Seq<u8>>
    decreases s.len(),
{
    if s.len() == 0 {
        seq![Seq::<u8>::empty()]
    } else {
        let before = split(s.drop_last(), sep);
        if s.last() == sep {
            before.push(Seq::<u8>::empty())
        } else {
            before.drop_last().push(before.last().push(s.last()))
        }
    }
}

/// The key and the value of a well-formed `k=v` entry: one ASCII character other
/// than `=`, then `=`, then a value in UTF-8.
pub open spec fn entry(field: Seq<u8>) -> Option<(u8, Seq<u8>)> {
    if field.len() >= 2 && field[0] < 128 && field[0] != '=' as u8 && field[1] == '=' as u8
        && utf8::valid_utf8(field.skip(2)) {
        Some((field[0], field.skip(2)))
    } else {
        None
    }
}

/// `keys` with the entry of `field` added, or unchanged where `field` is malformed.
pub open spec fn with_entry(keys: Map<u8, Seq<u8>>, field: Seq<u8>) -> Map<u8, Seq<u8>> {
    match entry(field) {
        Some((key, value)) => keys.insert(key, value),
        None => keys,
    }
}

/// The control keys that a list of fields sets. A later entry replaces an
/// earlier one, and malformed fields are skipped.
pub open spec fn entries(fields: Seq<Seq<u8>>) -> Map<u8, Seq<u8>>
    decreases fields.len(),
{
    if fields.len() == 0 {
        Map::empty()
    } else {
        with_entry(entries(fields.drop_last()), fields.last())
    }
}

/// The control keys that a comma-separated list sets, each with the bytes of its value.
pub open spec fn keys_of(bytes: Seq<u8>) -> Map<u8, Seq<u8>> {
    entries(split(bytes, ',' as u8))
}

/// A key map with the bytes of each value.
pub open spec fn key_bytes(keys: Map<u8, String>) -> Map<u8, Seq<u8>> {
    keys.map_values(|value: String| utf8::encode_utf8(value@))
}

/// Whether `key` is set to `text`.
pub open spec fn key_is(keys: Map<u8, Seq<u8>>, key: char, text: Seq<char>) -> bool {
    keys.contains_key(key as u8) && keys[key as u8] == text::ascii(text)
}

/// The number that `key` is set to, where it is one of at most `max`.
pub open spec fn key_number(keys: Map<u8, Seq<u8>>, key: char, max: nat) -> Option<nat> {
    if keys.contains_key(key as u8) {
        text::number(keys[key as u8], max)
    } else {
        None
    }
}

/// The 32-bit number that `key` is set to.
pub open spec fn key_u32(keys: Map<u8, Seq<u8>>, key: char) -> Option<u32> {
    match key_number(keys, key, u32::MAX as nat) {
        Some(n) => Some(n as u32),
        None => None,
    }
}

/// The action that the `a` key selects.
pub open spec fn action_of(keys: Map<u8, Seq<u8>>) -> KittyAction {
    if !keys.contains_key('a' as u8) || key_is(keys, 'a', "t"@) {
        KittyAction::Transmit
    } else if key_is(keys, 'a', "T"@) {
        KittyAction::TransmitAndDisplay
    } else if key_is(keys, 'a', "p"@) {
        KittyAction::Place
    } else if key_is(keys, 'a', "d"@) {
        KittyAction::Delete
    } else if key_is(keys, 'a', "q"@) {
        KittyAction::Query
    } else {
        KittyAction::Unknown
    }
}

/// The pixel format that the `f` key selects.
pub open spec fn format_of(keys: Map<u8, Seq<u8>>) -> KittyFormat {
    if key_is(keys, 'f', "24"@) {
        KittyFormat::Rgb
    } else if key_is(keys, 'f', "100"@) {
        KittyFormat::Png
    } else {
        KittyFormat::Rgba
    }
}

/// The transmission medium that the `t` key selects.
pub open spec fn medium_of(keys: Map<u8, Seq<u8>>) -> KittyMedium {
    if key_is(keys, 't', "f"@) {
        KittyMedium::File
    } else if key_is(keys, 't', "t"@) {
        KittyMedium::TempFile
    } else if key_is(keys, 't', "s"@) {
        KittyMedium::SharedMemory
    } else {
        KittyMedium::Direct
    }
}

/// The quiet level that the `q` key sets: zero unless it is a number that fits a byte.
pub open spec fn quiet_of(keys: Map<u8, Seq<u8>>) -> u8 {
    match key_number(keys, 'q', u8::MAX as nat) {
        Some(n) => n as u8,
        None => 0,
    }
}

/// The typed control that a set of keys stands for.
pub open spec fn control_of(keys: Map<u8, Seq<u8>>) -> KittyControl {
    KittyControl {
        action: action_of(keys),
        format: format_of(keys),
        medium: medium_of(keys),
        image_id: key_u32(keys, 'i'),
        image_number: key_u32(keys, 'I'),
        placement_id: key_u32(keys, 'p'),
        more: key_is(keys, 'm', "1"@),
        src_width: key_u32(keys, 's'),
        src_height: key_u32(keys, 'v'),
        target_cols: key_u32(keys, 'c'),
        target_rows: key_u32(keys, 'r'),
        move_cursor: key_u32(keys, 'C') != Some(1u32),
        compressed: key_is(keys, 'o', "z"@),
        quiet: quiet_of(keys),
    }
}

/// What a delete command with these keys removes. The `d` selector is `a` by
/// default, and its case does not matter.
pub open spec fn delete_of(keys: Map<u8, Seq<u8>>) -> KittyDelete {
    if !keys.contains_key('d' as u8) || key_is(keys, 'd', "a"@) || key_is(keys, 'd', "A"@) {
        KittyDelete::All
    } else if key_is(keys, 'd', "i"@) || key_is(keys, 'd', "I"@) {
        match key_u32(keys, 'i') {
            Some(id) => KittyDelete::ById(id),
            None => KittyDelete::Unsupported,
        }
    } else {
        KittyDelete::Unsupported
    }
}

/// The index of the first `b` in `s`, or the length of `s` where there is none.
pub open spec fn first(s: Seq<u8>, b: u8) -> int
    decreases s.len(),
{
    if s.len() == 0 || s[0] == b {
        0
    } else {
        1 + first(s.skip(1), b)
    }
}

/// The control part of a command: what stands before the first `;`.
pub open spec fn head(body: Seq<u8>) -> Seq<u8> {
    body.take(first(body, ';' as u8))
}

/// The payload of a command: what stands behind the first `;`, if there is one.
pub open spec fn tail(body: Seq<u8>) -> Seq<u8> {
    if first(body, ';' as u8) < body.len() {
        body.skip(first(body, ';' as u8) + 1)
    } else {
        Seq::empty()
    }
}

/// Whether a key list is malformed as a whole: there is text, and not one
/// well-formed entry in it. An empty list is well-formed; it sets no key.
pub open spec fn is_malformed(list: Seq<u8>) -> bool {
    list.len() > 0 && keys_of(list) == Map::<u8, Seq<u8>>::empty()
}

/// What the command with this body asks for: nothing where its key list is
/// malformed, else what its action says.
pub open spec fn outcome_of(body: Seq<u8>) -> OutcomeView {
    let keys = keys_of(head(body));
    let control = control_of(keys);
    if is_malformed(head(body)) {
        OutcomeView::Ignore
    } else {
        match control.action {
            KittyAction::Query => OutcomeView::Query(
                KittyQuery {
                    id: control.image_id,
                    image_number: control.image_number,
                    quiet: control.quiet,
                    medium: control.medium,
                },
            ),
            KittyAction::Transmit | KittyAction::TransmitAndDisplay | KittyAction::Place =>
                OutcomeView::Store { control, payload: tail(body) },
            KittyAction::Delete => OutcomeView::Delete(delete_of(keys)),
            KittyAction::Unknown => OutcomeView::Ignore,
        }
    }
}

// ---------------------------------------------------------------------------
// Reading keys
// ---------------------------------------------------------------------------

/// The text that `bytes` encode, by `std::str::from_utf8`. That function is
/// believed to accept exactly the byte strings that are valid UTF-8, and to
/// hand out the text whose encoding is `bytes`.
#[verifier::external_body]
fn utf8_text(bytes: &[u8]) -> (r: Option<&str>)
    ensures
        match r {
            Some(text) => utf8::valid_utf8(bytes@) && utf8::encode_utf8(text@) == bytes@,
            None => !utf8::valid_utf8(bytes@),
        },
{
    std::str::from_utf8(bytes).ok()
}

/// Reads one `k=v` entry, as [`entry`] says.
fn read_entry(field: &[u8]) -> (r: Option<(u8, String)>)
    ensures
        match r {
            Some((key, value)) => entry(field@) == Some((key, utf8::encode_utf8(value@))),
            None => entry(field@) is None,
        },
{
    if field.len() < 2 || field[0] >= 128 || field[0] == '=' as u8 || field[1] != '=' as u8 {
        return None;
    }
    let value = vstd::slice::slice_subrange(field, 2, field.len());
    assert(value@ =~= field@.skip(2));
    match utf8_text(value) {
        Some(text) => Some((field[0], text.to_owned())),
        None => None,
    }
}

/// Parses a comma-separated list of `k=v` control keys. Keys are single ASCII
/// characters. Malformed entries are skipped, and the last entry of a key counts.
pub fn parse_keys(bytes: &[u8]) -> (r: HashMap<u8, String>)
    ensures
        key_bytes(r@) == keys_of(bytes@),
{
    let mut keys: HashMap<u8, String> = HashMap::new();
    let mut start: usize = 0;
    let mut i: usize = 0;
    assert(key_bytes(keys@) =~= entries(split(bytes@.take(0), ',' as u8).drop_last()));
    assert(bytes@.subrange(0, 0) =~= split(bytes@.take(0), ',' as u8).last());
    while i < bytes.len()
        invariant
            start <= i <= bytes@.len(),
            key_bytes(keys@) == entries(split(bytes@.take(i as int), ',' as u8).drop_last()),
            split(bytes@.take(i as int), ',' as u8).len() > 0,
            bytes@.subrange(start as int, i as int) == split(
                bytes@.take(i as int),
                ',' as u8,
            ).last(),
        decreases bytes@.len() - i,
    {
        proof {
            assert(bytes@.take(i + 1).drop_last() =~= bytes@.take(i as int));
        }
        let ghost before = split(bytes@.take(i as int), ',' as u8);
        let ghost after = split(bytes@.take(i + 1), ',' as u8);
        if bytes[i] == ',' as u8 {
            let field = vstd::slice::slice_subrange(bytes, start, i);
            let ghost old_keys = keys@;
            if let Some((key, value)) = read_entry(field) {
                keys.insert(key, value);
                assert(key_bytes(keys@) =~= key_bytes(old_keys).insert(key, utf8::encode_utf8(value@)));
            }
            start = i + 1;
            assert(after.drop_last() =~= before);
            assert(bytes@.subrange(start as int, i + 1) =~= after.last());
        } else {
            assert(after.drop_last() =~= before.drop_last());
            assert(bytes@.subrange(start as int, i + 1) =~= after.last());
        }
        i = i + 1;
    }
    let field = vstd::slice::slice_subrange(bytes, start, i);
    let ghost old_keys = keys@;
    if let Some((key, value)) = read_entry(field) {
        keys.insert(key, value);
        assert(key_bytes(keys@) =~= key_bytes(old_keys).insert(key, utf8::encode_utf8(value@)));
    }
    assert(bytes@.take(i as int) =~= bytes@);
    keys
}

/// Whether `key` is set to the ASCII text `text`.
fn is_set_to(keys: &HashMap<u8, String>, key: char, text: &str) -> (r: bool)
    requires
        text.is_ascii(),
    ensures
        r == key_is(key_bytes(keys@), key, text@),
{
    match keys.get(&(key as u8)) {
        Some(value) => is_text(value.as_str().as_bytes(), text),
        None => false,
    }
}

/// The number of at most `max` that `key` is set to.
fn number_of(keys: &HashMap<u8, String>, key: char, max: u32) -> (r: Option<u32>)
    ensures
        match r {
            Some(n) => key_number(key_bytes(keys@), key, max as nat) == Some(n as nat),
            None => key_number(key_bytes(keys@), key, max as nat) is None,
        },
{
    match keys.get(&(key as u8)) {
        Some(value) => read_number(value.as_str().as_bytes(), max),
        None => None,
    }
}

/// The 32-bit number that `key` is set to.
fn u32_of(keys: &HashMap<u8, String>, key: char) -> (r: Option<u32>)
    ensures
        r == key_u32(key_bytes(keys@), key),
{
    number_of(keys, key, u32::MAX)
}

fn read_action(keys: &HashMap<u8, String>) -> (r: KittyAction)
    ensures
        r == action_of(key_bytes(keys@)),
{
    proof {
        reveal_strlit("t");
        reveal_strlit("T");
        reveal_strlit("p");
        reveal_strlit("d");
        reveal_strlit("q");
    }
    if !keys.contains_key(&('a' as u8)) || is_set_to(keys, 'a', "t") {
        KittyAction::Transmit
    } else if is_set_to(keys, 'a', "T") {
        KittyAction::TransmitAndDisplay
    } else if is_set_to(keys, 'a', "p") {
        KittyAction::Place
    } else if is_set_to(keys, 'a', "d") {
        KittyAction::Delete
    } else if is_set_to(keys, 'a', "q") {
        KittyAction::Query
    } else {
        KittyAction::Unknown
    }
}

fn read_format(keys: &HashMap<u8, String>) -> (r: KittyFormat)
    ensures
        r == format_of(key_bytes(keys@)),
{
    proof {
        reveal_strlit("24");
        reveal_strlit("100");
    }
    if is_set_to(keys, 'f', "24") {
        KittyFormat::Rgb
    } else if is_set_to(keys, 'f', "100") {
        KittyFormat::Png
    } else {
        KittyFormat::Rgba
    }
}

fn read_medium(keys: &HashMap<u8, String>) -> (r: KittyMedium)
    ensures
        r == medium_of(key_bytes(keys@)),
{
    proof {
        reveal_strlit("f");
        reveal_strlit("t");
        reveal_strlit("s");
    }
    if is_set_to(keys, 't', "f") {
        KittyMedium::File
    } else if is_set_to(keys, 't', "t") {
        KittyMedium::TempFile
    } else if is_set_to(keys, 't', "s") {
        KittyMedium::SharedMemory
    } else {
        KittyMedium::Direct
    }
}

/// Builds the typed control from raw control keys. Absent keys take their
/// defaults: action `t`, format RGBA, medium direct.
pub fn parse_control(keys: &HashMap<u8, String>) -> (r: KittyControl)
    ensures
        r == control_of(key_bytes(keys@)),
{
    proof {
        reveal_strlit("1");
        reveal_strlit("z");
    }
    KittyControl {
        action: read_action(keys),
        format: read_format(keys),
        medium: read_medium(keys),
        image_id: u32_of(keys, 'i'),
        image_number: u32_of(keys, 'I'),
        placement_id: u32_of(keys, 'p'),
        more: is_set_to(keys, 'm', "1"),
        src_width: u32_of(keys, 's'),
        src_height: u32_of(keys, 'v'),
        target_cols: u32_of(keys, 'c'),
        target_rows: u32_of(keys, 'r'),
        move_cursor: match u32_of(keys, 'C') {
            Some(n) => n != 1,
            None => true,
        },
        compressed: is_set_to(keys, 'o', "z"),
        quiet: match number_of(keys, 'q', u8::MAX as u32) {
            Some(n) => n as u8,
            None => 0,
        },
    }
}

// ---------------------------------------------------------------------------
// Classifying a command
// ---------------------------------------------------------------------------

/// The first `b` of `s` is the one with no other before it.
pub(crate) proof fn lemma_first(s: Seq<u8>, b: u8)
    ensures
        0 <= first(s, b) <= s.len(),
        first(s, b) < s.len() ==> s[first(s, b)] == b,
        forall|i: int| 0 <= i < first(s, b) ==> s[i] != b,
    decreases s.len(),
{
    if s.len() > 0 && s[0] != b {
        lemma_first(s.skip(1), b);
        assert forall|i: int| 0 <= i < first(s, b) implies s[i] != b by {
            if i > 0 {
                assert(s[i] == s.skip(1)[i - 1]);
            }
        }
    }
}

/// Finds the first `b`, as [`first`] says.
fn find_first(s: &[u8], b: u8) -> (r: usize)
    ensures
        r == first(s@, b),
        r <= s@.len(),
{
    proof {
        lemma_first(s@, b);
    }
    let mut i: usize = 0;
    while i < s.len() && s[i] != b
        invariant
            i <= first(s@, b) <= s@.len(),
            first(s@, b) < s@.len() ==> s@[first(s@, b)] == b,
            forall|j: int| 0 <= j < first(s@, b) ==> s@[j] != b,
        decreases s@.len() - i,
    {
        i = i + 1;
    }
    i
}

fn read_delete(keys: &HashMap<u8, String>) -> (r: KittyDelete)
    ensures
        r == delete_of(key_bytes(keys@)),
{
    proof {
        reveal_strlit("a");
        reveal_strlit("A");
        reveal_strlit("i");
        reveal_strlit("I");
    }
    if !keys.contains_key(&('d' as u8)) || is_set_to(keys, 'd', "a") || is_set_to(keys, 'd', "A") {
        KittyDelete::All
    } else if is_set_to(keys, 'd', "i") || is_set_to(keys, 'd', "I") {
        match u32_of(keys, 'i') {
            Some(id) => KittyDelete::ById(id),
            None => KittyDelete::Unsupported,
        }
    } else {
        KittyDelete::Unsupported
    }
}

/// Parses the body of a graphics command, `<keys>[;<payload>]`: the bytes
/// behind the leading `G` of the APC. Text without any well-formed key, such as
/// a stray message that begins with a `G`, is ignored.
pub fn dispatch(body: &[u8]) -> (r: KittyOutcome)
    ensures
        r@ == outcome_of(body@),
{
    let at = find_first(body, ';' as u8);
    let head_bytes = vstd::slice::slice_subrange(body, 0, at);
    assert(head_bytes@ =~= head(body@));
    let keys = parse_keys(head_bytes);
    assert(key_bytes(keys@).dom() =~= keys@.dom());
    if head_bytes.len() > 0 && keys.is_empty() {
        assert(key_bytes(keys@) =~= Map::empty());
        return KittyOutcome::Ignore;
    }
    let control = parse_control(&keys);
    match control.action {
        KittyAction::Query => KittyOutcome::Query(
            KittyQuery {
                id: control.image_id,
                image_number: control.image_number,
                quiet: control.quiet,
                medium: control.medium,
            },
        ),
        KittyAction::Transmit | KittyAction::TransmitAndDisplay | KittyAction::Place => {
            let payload = if at < body.len() {
                vstd::slice::slice_to_vec(vstd::slice::slice_subrange(body, at + 1, body.len()))
            } else {
                Vec::new()
            };
            assert(payload@ =~= tail(body@));
            KittyOutcome::Store(KittyCommand { control, payload })
        },
        KittyAction::Delete => KittyOutcome::Delete(read_delete(&keys)),
        KittyAction::Unknown => KittyOutcome::Ignore,
    }
}

} // verus!
