//! Laws of what control keys mean, of the outcome of a command, and of replies,
//! each stated in bytes.
use vstd::prelude::*;
use vstd::utf8;

use crate::parse;
use crate::parse_laws;
use crate::protocol::{
    KittyAction, KittyCommand, KittyDelete, KittyFormat, KittyMedium, KittyOutcome,
    KittyQuery, OutcomeView,
};
use crate::query;
use crate::text;

verus! {

// ---------------------------------------------------------------------------
// Numbers
// ---------------------------------------------------------------------------

/// Whether a byte is one of the ten digits.
pub open spec fn is_decimal_digit(b: u8) -> bool {
    48 <= b <= 57
}

/// A single digit reads as its value, and neither nothing nor a sign alone is a
/// number.
pub proof fn law_one_digit_reads_as_its_value(d: u8, max: nat)
    requires
        is_decimal_digit(d),
    ensures
        text::number(seq![d], max) == (if d - 48 <= max {
            Some((d - 48) as nat)
        } else {
            None
        }),
        text::number(Seq::empty(), max) is None,
        text::number(seq!['+' as u8], max) is None,
{
    let s = seq![d];
    assert(s.drop_last() =~= Seq::empty());
    assert(text::digits_value(s.drop_last()) == 0);
    assert(text::all_digits(s));
    assert(seq!['+' as u8].skip(1) =~= Seq::empty());
}

/// One more digit makes ten times the number and the digit.
pub proof fn law_next_digit_counts(s: Seq<u8>, n: nat, d: u8, bound: nat, max: nat)
    requires
        text::number(s, bound) == Some(n),
        is_decimal_digit(d),
    ensures
        text::number(s.push(d), max) == (if n * 10 + (d - 48) <= max {
            Some((n * 10 + (d - 48)) as nat)
        } else {
            None
        }),
{
    let signed = s[0] == '+' as u8;
    let digits = if signed {
        s.skip(1)
    } else {
        s
    };
    let longer = if signed {
        s.push(d).skip(1)
    } else {
        s.push(d)
    };
    assert(s.push(d)[0] == s[0]);
    assert(longer =~= digits.push(d));
    assert(longer.drop_last() =~= digits);
    assert(text::all_digits(longer)) by {
        assert forall|i: int| 0 <= i < longer.len() implies text::is_digit(#[trigger] longer[i]) by {
            if i < digits.len() {
                assert(text::is_digit(digits[i]));
            }
        }
    }
}

/// What is no digit makes a text no number, unless it is a `+` at its start.
pub proof fn law_other_characters_are_no_number(s: Seq<u8>, i: int, max: nat)
    requires
        0 <= i < s.len(),
        !is_decimal_digit(s[i]),
        i > 0 || s[0] != '+' as u8,
    ensures
        text::number(s, max) is None,
{
    if s[0] == '+' as u8 {
        assert(s.skip(1)[i - 1] == s[i]);
        assert(!text::is_digit(s.skip(1)[i - 1]));
    } else {
        assert(!text::is_digit(s[i]));
    }
}

/// A `+` before a number does not count, and a limit admits exactly the numbers
/// up to it.
pub proof fn law_sign_and_limit(s: Seq<u8>, bound: nat, max: nat)
    ensures
        s.len() > 0 && s[0] != '+' as u8 ==> text::number(seq!['+' as u8] + s, max)
            == text::number(s, max),
        text::number(s, bound) matches Some(n) ==> n <= bound && text::number(s, max) == (if n
            <= max {
            Some(n)
        } else {
            None
        }),
{
    assert((seq!['+' as u8] + s).skip(1) =~= s);
}

proof fn lemma_decimal_starts(n: nat)
    ensures
        text::decimal(n).len() > 0,
        n > 0 ==> text::decimal(n)[0] != '0' as u8,
        n >= 10 ==> text::decimal(n).len() > 1,
    decreases n,
{
    if n >= 10 {
        lemma_decimal_starts(n / 10);
    }
}

/// A written number holds digits alone, and starts with a zero only where it is
/// zero: then that is all of it.
pub proof fn law_decimal_is_plain(n: nat, i: int)
    requires
        0 <= i < text::decimal(n).len(),
    ensures
        is_decimal_digit(text::decimal(n)[i]),
        text::decimal(n)[0] == '0' as u8 <==> n == 0,
        n == 0 ==> text::decimal(n).len() == 1,
{
    parse_laws::lemma_decimal(n);
    lemma_decimal_starts(n);
    assert(text::is_digit(text::decimal(n)[i]));
}

// ---------------------------------------------------------------------------
// Keys
// ---------------------------------------------------------------------------

/// A field is an entry exactly if it is one ASCII character other than `=`, then
/// `=`, then UTF-8; these are its key and its value.
pub proof fn law_entry_is_key_and_value(field: Seq<u8>, key: u8, value: Seq<u8>)
    ensures
        parse::entry(field) == Some((key, value)) <==> {
            &&& field == seq![key, '=' as u8] + value
            &&& key < 128
            &&& key != '=' as u8
            &&& utf8::valid_utf8(value)
        },
        parse::entry(field) is None ==> !(field == seq![key, '=' as u8] + value && key < 128 && key
            != '=' as u8 && utf8::valid_utf8(value)),
{
    let whole = seq![key, '=' as u8] + value;
    assert(whole.skip(2) =~= value);
    if parse::entry(field) == Some((key, value)) {
        assert(field =~= whole);
    }
}

/// A well-formed entry at the end of a list sets its key, and leaves every other
/// key as it was. A list that is empty sets none.
pub proof fn law_entry_sets_one_key(list: Seq<u8>, key: u8, value: Seq<u8>)
    requires
        key < 128 && key != '=' as u8 && key != ',' as u8,
        utf8::valid_utf8(value),
        !value.contains(',' as u8),
    ensures
        parse::keys_of(list + seq![',' as u8, key, '=' as u8] + value) == parse::keys_of(
            list,
        ).insert(key, value),
        parse::keys_of(seq![key, '=' as u8] + value) == Map::<u8, Seq<u8>>::empty().insert(
            key,
            value,
        ),
        parse::keys_of(Seq::empty()) == Map::<u8, Seq<u8>>::empty(),
{
    let field = seq![key, '=' as u8] + value;
    law_entry_is_key_and_value(field, key, value);
    assert(!field.contains(',' as u8)) by {
        if field.contains(',' as u8) {
            let i = choose|i: int| 0 <= i < field.len() && field[i] == ',' as u8;
            assert(i >= 2 && value[i - 2] == field[i]);
        }
    }
    let none = Seq::<u8>::empty();
    parse_laws::law_split_without_separator(none, ',' as u8);
    parse_laws::law_split_without_separator(field, ',' as u8);
    assert(seq![none].drop_last() =~= Seq::empty());
    assert(seq![none].last() == none);
    assert(parse::entries(seq![none].drop_last()) == Map::<u8, Seq<u8>>::empty());
    assert(seq![field].drop_last() =~= Seq::empty());
    assert(seq![field].last() == field);
    assert(parse::entries(seq![field].drop_last()) == Map::<u8, Seq<u8>>::empty());
    parse_laws::law_last_entry_counts(list, field);
    assert(list + seq![',' as u8] + field =~= list + seq![',' as u8, key, '=' as u8] + value);
}

/// The bytes of a text are those of its characters.
pub proof fn law_ascii_is_bytewise(s: Seq<char>)
    ensures
        text::ascii(s).len() == s.len(),
        forall|i: int| 0 <= i < s.len() ==> #[trigger] text::ascii(s)[i] == s[i] as u8,
{
}

/// What the `a` key selects, in each of its values.
pub proof fn law_action_key(keys: Map<u8, Seq<u8>>)
    ensures
        ({
            let action = parse::control_of(keys).action;
            let set = keys.contains_key('a' as u8);
            let value = keys['a' as u8];
            &&& action == KittyAction::Transmit <==> !set || value == seq!['t' as u8]
            &&& action == KittyAction::TransmitAndDisplay <==> set && value == seq!['T' as u8]
            &&& action == KittyAction::Place <==> set && value == seq!['p' as u8]
            &&& action == KittyAction::Delete <==> set && value == seq!['d' as u8]
            &&& action == KittyAction::Query <==> set && value == seq!['q' as u8]
        }),
{
    reveal_strlit("t");
    reveal_strlit("T");
    reveal_strlit("p");
    reveal_strlit("d");
    reveal_strlit("q");
    assert(text::ascii("t"@) =~= seq!['t' as u8]);
    assert(text::ascii("T"@) =~= seq!['T' as u8]);
    assert(text::ascii("p"@) =~= seq!['p' as u8]);
    assert(text::ascii("d"@) =~= seq!['d' as u8]);
    assert(text::ascii("q"@) =~= seq!['q' as u8]);
    let value = keys['a' as u8];
    assert(seq!['t' as u8][0] == 't' as u8 && seq!['T' as u8][0] == 'T' as u8);
    assert(seq!['p' as u8][0] == 'p' as u8 && seq!['d' as u8][0] == 'd' as u8);
    assert(seq!['q' as u8][0] == 'q' as u8);
}

/// What the `f` key and the `t` key select, in each of their values.
pub proof fn law_format_and_medium_keys(keys: Map<u8, Seq<u8>>)
    ensures
        ({
            let format = parse::control_of(keys).format;
            let set = keys.contains_key('f' as u8);
            let value = keys['f' as u8];
            &&& format == KittyFormat::Rgb <==> set && value == seq!['2' as u8, '4' as u8]
            &&& format == KittyFormat::Png <==> set && value == seq!['1' as u8, '0' as u8, '0' as u8]
        }),
        ({
            let medium = parse::control_of(keys).medium;
            let set = keys.contains_key('t' as u8);
            let value = keys['t' as u8];
            &&& medium == KittyMedium::File <==> set && value == seq!['f' as u8]
            &&& medium == KittyMedium::TempFile <==> set && value == seq!['t' as u8]
            &&& medium == KittyMedium::SharedMemory <==> set && value == seq!['s' as u8]
        }),
{
    reveal_strlit("24");
    reveal_strlit("100");
    reveal_strlit("f");
    reveal_strlit("t");
    reveal_strlit("s");
    assert(text::ascii("24"@) =~= seq!['2' as u8, '4' as u8]);
    assert(text::ascii("100"@) =~= seq!['1' as u8, '0' as u8, '0' as u8]);
    assert(text::ascii("f"@) =~= seq!['f' as u8]);
    assert(text::ascii("t"@) =~= seq!['t' as u8]);
    assert(text::ascii("s"@) =~= seq!['s' as u8]);
    assert(seq!['2' as u8, '4' as u8].len() == 2);
    assert(seq!['1' as u8, '0' as u8, '0' as u8].len() == 3);
    assert(seq!['f' as u8][0] == 'f' as u8 && seq!['t' as u8][0] == 't' as u8);
    assert(seq!['s' as u8][0] == 's' as u8);
}

/// The flags: more chunks follow exactly for `m=1`, the payload is compressed
/// exactly for `o=z`.
pub proof fn law_flag_keys(keys: Map<u8, Seq<u8>>)
    ensures
        parse::control_of(keys).more <==> keys.contains_key('m' as u8) && keys['m' as u8] == seq![
            '1' as u8,
        ],
        parse::control_of(keys).compressed <==> keys.contains_key('o' as u8) && keys['o' as u8]
            == seq!['z' as u8],
{
    reveal_strlit("1");
    reveal_strlit("z");
    assert(text::ascii("1"@) =~= seq!['1' as u8]);
    assert(text::ascii("z"@) =~= seq!['z' as u8]);
}

/// Whether `n` is the 32-bit number that a key is set to, or none where it is
/// set to no such number or not at all.
pub open spec fn is_number_at(keys: Map<u8, Seq<u8>>, key: char, n: Option<u32>) -> bool {
    match n {
        Some(n) => keys.contains_key(key as u8) && text::number(
            keys[key as u8],
            0xffff_ffff,
        ) == Some(n as nat),
        None => keys.contains_key(key as u8) ==> text::number(
            keys[key as u8],
            0xffff_ffff,
        ) is None,
    }
}

/// Each number comes from its own key.
pub proof fn law_number_keys(keys: Map<u8, Seq<u8>>)
    ensures
        is_number_at(keys, 'i', parse::control_of(keys).image_id),
        is_number_at(keys, 'I', parse::control_of(keys).image_number),
        is_number_at(keys, 'p', parse::control_of(keys).placement_id),
        is_number_at(keys, 's', parse::control_of(keys).src_width),
        is_number_at(keys, 'v', parse::control_of(keys).src_height),
        is_number_at(keys, 'c', parse::control_of(keys).target_cols),
        is_number_at(keys, 'r', parse::control_of(keys).target_rows),
{
}

/// The cursor stays exactly where the `C` key is set to the number one.
pub proof fn law_cursor_key(keys: Map<u8, Seq<u8>>)
    ensures
        !parse::control_of(keys).move_cursor <==> is_number_at(keys, 'C', Some(1)),
{
}

/// The quiet level is the number that the `q` key is set to, where that fits a
/// byte, and zero otherwise.
pub proof fn law_quiet_key(keys: Map<u8, Seq<u8>>)
    ensures
        keys.contains_key('q' as u8) ==> match text::number(keys['q' as u8], 255) {
            Some(n) => parse::control_of(keys).quiet == n,
            None => parse::control_of(keys).quiet == 0,
        },
        !keys.contains_key('q' as u8) ==> parse::control_of(keys).quiet == 0,
{
}

/// What the `d` key selects, in each of its values.
pub proof fn law_delete_key(keys: Map<u8, Seq<u8>>)
    ensures
        ({
            let set = keys.contains_key('d' as u8);
            let value = keys['d' as u8];
            let all = !set || value == seq!['a' as u8] || value == seq!['A' as u8];
            let one = set && (value == seq!['i' as u8] || value == seq!['I' as u8]);
            match parse::delete_of(keys) {
                KittyDelete::All => all,
                KittyDelete::ById(id) => one && is_number_at(keys, 'i', Some(id)),
                KittyDelete::Unsupported => !all && (one ==> is_number_at(keys, 'i', None)),
            }
        }),
{
    reveal_strlit("a");
    reveal_strlit("A");
    reveal_strlit("i");
    reveal_strlit("I");
    assert(text::ascii("a"@) =~= seq!['a' as u8]);
    assert(text::ascii("A"@) =~= seq!['A' as u8]);
    assert(text::ascii("i"@) =~= seq!['i' as u8]);
    assert(text::ascii("I"@) =~= seq!['I' as u8]);
    assert(seq!['a' as u8][0] == 'a' as u8 && seq!['A' as u8][0] == 'A' as u8);
    assert(seq!['i' as u8][0] == 'i' as u8 && seq!['I' as u8][0] == 'I' as u8);
}

// ---------------------------------------------------------------------------
// Outcomes
// ---------------------------------------------------------------------------

/// What a body of keys and a payload asks for, by its action, where its list is
/// empty or sets a key: a query has the id, the number, the quiet level and the
/// medium of the control, a stored command has the control and the payload as
/// they came, and a delete has what its keys select.
pub proof fn law_outcome_by_action(list: Seq<u8>, payload: Seq<u8>)
    requires
        !list.contains(';' as u8),
        list.len() == 0 || parse::keys_of(list) != Map::<u8, Seq<u8>>::empty(),
    ensures
        ({
            let keys = parse::keys_of(list);
            let control = parse::control_of(keys);
            match parse::outcome_of(list + seq![';' as u8] + payload) {
                OutcomeView::Query(query) => {
                    &&& control.action == KittyAction::Query
                    &&& query.id == control.image_id
                    &&& query.image_number == control.image_number
                    &&& query.quiet == control.quiet
                    &&& query.medium == control.medium
                },
                OutcomeView::Store { control: stored, payload: kept } => {
                    &&& control.action == KittyAction::Transmit || control.action
                        == KittyAction::TransmitAndDisplay || control.action == KittyAction::Place
                    &&& stored == control
                    &&& kept == payload
                },
                OutcomeView::Delete(delete) => control.action == KittyAction::Delete && delete
                    == parse::delete_of(keys),
                OutcomeView::Ignore => control.action == KittyAction::Unknown,
            }
        }),
        parse::outcome_of(list) == match parse::outcome_of(list + seq![';' as u8] + payload) {
            OutcomeView::Store { control, .. } => OutcomeView::Store {
                control,
                payload: Seq::empty(),
            },
            other => other,
        },
{
    parse_laws::law_body_is_parted(list, payload);
}

/// A list with text that sets no key makes any body nothing to act on.
pub proof fn law_list_without_keys_is_ignored(list: Seq<u8>, payload: Seq<u8>)
    requires
        !list.contains(';' as u8),
        list.len() > 0,
        parse::keys_of(list) == Map::<u8, Seq<u8>>::empty(),
    ensures
        parse::outcome_of(list + seq![';' as u8] + payload) == OutcomeView::Ignore,
        parse::outcome_of(list) == OutcomeView::Ignore,
{
    parse_laws::law_body_is_parted(list, payload);
}

/// An outcome is seen as it is.
pub proof fn law_outcome_view(query: KittyQuery, command: KittyCommand, delete: KittyDelete)
    ensures
        KittyOutcome::Query(query)@ == OutcomeView::Query(query),
        KittyOutcome::Store(command)@ == (OutcomeView::Store {
            control: command.control,
            payload: command.payload@,
        }),
        KittyOutcome::Delete(delete)@ == OutcomeView::Delete(delete),
        KittyOutcome::Ignore@ == OutcomeView::Ignore,
{
}

/// A key map is seen with the UTF-8 bytes of each value.
pub proof fn law_key_bytes(keys: Map<u8, String>, key: u8)
    ensures
        parse::key_bytes(keys).contains_key(key) <==> keys.contains_key(key),
        keys.contains_key(key) ==> parse::key_bytes(keys)[key] == utf8::encode_utf8(keys[key]@),
{
}

// ---------------------------------------------------------------------------
// Replies
// ---------------------------------------------------------------------------

/// The bytes of each reply: `ESC _ G`, the id and the number that were asked
/// with, `;`, `OK` for the direct medium and `EBADT` for every other, `ESC \`.
pub proof fn law_reply_bytes(query: KittyQuery)
    requires
        query.quiet == 0 || query.quiet == 1 && query.medium != KittyMedium::Direct,
    ensures
        query::reply_of(query) == Some(
            seq![0x1bu8, '_' as u8, 'G' as u8] + (match (query.id, query.image_number) {
                (Some(id), Some(n)) => seq!['i' as u8, '=' as u8] + text::decimal(id as nat) + seq![
                    ',' as u8,
                    'I' as u8,
                    '=' as u8,
                ] + text::decimal(n as nat),
                (Some(id), None) => seq!['i' as u8, '=' as u8] + text::decimal(id as nat),
                (None, Some(n)) => seq!['I' as u8, '=' as u8] + text::decimal(n as nat),
                (None, None) => Seq::empty(),
            }) + seq![';' as u8] + (if query.medium == KittyMedium::Direct {
                seq!['O' as u8, 'K' as u8]
            } else {
                seq!['E' as u8, 'B' as u8, 'A' as u8, 'D' as u8, 'T' as u8]
            }) + seq![0x1bu8, '\\' as u8],
        ),
{
    reveal_strlit("\x1b_G");
    reveal_strlit("i=");
    reveal_strlit(",");
    reveal_strlit("I=");
    reveal_strlit(";");
    reveal_strlit("OK");
    reveal_strlit("EBADT");
    reveal_strlit("\x1b\\");
    assert(text::ascii("\x1b_G"@) =~= seq![0x1bu8, '_' as u8, 'G' as u8]);
    assert(text::ascii("i="@) =~= seq!['i' as u8, '=' as u8]);
    assert(text::ascii(","@) =~= seq![',' as u8]);
    assert(text::ascii("I="@) =~= seq!['I' as u8, '=' as u8]);
    assert(text::ascii(";"@) =~= seq![';' as u8]);
    assert(text::ascii("OK"@) =~= seq!['O' as u8, 'K' as u8]);
    assert(text::ascii("EBADT"@) =~= seq!['E' as u8, 'B' as u8, 'A' as u8, 'D' as u8, 'T' as u8]);
    assert(text::ascii("\x1b\\"@) =~= seq![0x1bu8, '\\' as u8]);
    let keys = match (query.id, query.image_number) {
        (Some(id), Some(n)) => seq!['i' as u8, '=' as u8] + text::decimal(id as nat) + seq![
            ',' as u8,
            'I' as u8,
            '=' as u8,
        ] + text::decimal(n as nat),
        (Some(id), None) => seq!['i' as u8, '=' as u8] + text::decimal(id as nat),
        (None, Some(n)) => seq!['I' as u8, '=' as u8] + text::decimal(n as nat),
        (None, None) => Seq::empty(),
    };
    assert(query::echoed_keys(query) =~= keys);
}

} // verus!
