//! Laws of the command grammar.
use vstd::prelude::*;
use vstd::utf8;

use crate::parse;
use crate::protocol::{KittyAction, KittyMedium, KittyQuery, OutcomeView};
use crate::query;
use crate::tables;
use crate::text;

verus! {

// ---------------------------------------------------------------------------
// Numbers and text
// ---------------------------------------------------------------------------

/// What the digits of a number are.
pub(crate) proof fn lemma_decimal(n: nat)
    ensures
        text::decimal(n).len() > 0,
        text::all_digits(text::decimal(n)),
        text::digits_value(text::decimal(n)) == n,
    decreases n,
{
    if n < 10 {
        let s = text::decimal(n);
        assert(s.drop_last() =~= Seq::empty());
        assert(text::digits_value(s.drop_last()) == 0);
    } else {
        lemma_decimal(n / 10);
        let s = text::decimal(n);
        assert(s.drop_last() =~= text::decimal(n / 10));
    }
}

/// A number that is written in decimal reads back as itself, wherever the limit
/// admits it.
pub proof fn law_decimal_reads_back(n: nat, max: nat)
    ensures
        text::number(text::decimal(n), max) == (if n <= max {
            Some(n)
        } else {
            None
        }),
{
    lemma_decimal(n);
    assert(text::is_digit(text::decimal(n)[0]));
}

proof fn lemma_leading_zero(digits: Seq<u8>)
    ensures
        text::digits_value(seq!['0' as u8] + digits) == text::digits_value(digits),
    decreases digits.len(),
{
    let longer = seq!['0' as u8] + digits;
    if digits.len() == 0 {
        assert(longer.drop_last() =~= Seq::empty());
        assert(text::digits_value(longer.drop_last()) == 0);
    } else {
        assert(longer.drop_last() =~= seq!['0' as u8] + digits.drop_last());
        lemma_leading_zero(digits.drop_last());
    }
}

/// Numbers are read by their value: a leading zero does not count.
pub proof fn law_leading_zero_does_not_count(digits: Seq<u8>, max: nat)
    requires
        digits.len() > 0,
        digits[0] != '+' as u8,
    ensures
        text::number(seq!['0' as u8] + digits, max) == text::number(digits, max),
{
    let longer = seq!['0' as u8] + digits;
    lemma_leading_zero(digits);
    assert(text::all_digits(longer) <==> text::all_digits(digits)) by {
        if text::all_digits(longer) {
            assert forall|i: int| 0 <= i < digits.len() implies text::is_digit(
                #[trigger] digits[i],
            ) by {
                assert(longer[i + 1] == digits[i]);
            }
        }
    }
}

/// ASCII is UTF-8.
proof fn lemma_ascii_is_utf8(s: Seq<u8>)
    requires
        forall|i: int| 0 <= i < s.len() ==> #[trigger] s[i] < 128,
    ensures
        utf8::valid_utf8(s),
    decreases s.len(),
{
    if s.len() > 0 {
        let b = s[0];
        assert(b & 0x7f <= 0x7f) by (bit_vector);
        lemma_ascii_is_utf8(utf8::pop_first_scalar(s));
    }
}

// ---------------------------------------------------------------------------
// Lists of entries
// ---------------------------------------------------------------------------

proof fn lemma_split_is_not_empty(s: Seq<u8>, sep: u8)
    ensures
        parse::split(s, sep).len() > 0,
    decreases s.len(),
{
    if s.len() > 0 {
        lemma_split_is_not_empty(s.drop_last(), sep);
    }
}

/// A separator parts the fields before it from those behind it.
pub proof fn law_split_at_separator(a: Seq<u8>, sep: u8, b: Seq<u8>)
    ensures
        parse::split(a + seq![sep] + b, sep) == parse::split(a, sep) + parse::split(b, sep),
    decreases b.len(),
{
    let s = a + seq![sep] + b;
    if b.len() == 0 {
        assert(s.drop_last() =~= a);
        assert(parse::split(s, sep) =~= parse::split(a, sep) + parse::split(b, sep));
    } else {
        assert(s.drop_last() =~= a + seq![sep] + b.drop_last());
        law_split_at_separator(a, sep, b.drop_last());
        lemma_split_is_not_empty(b.drop_last(), sep);
        assert(parse::split(s, sep) =~= parse::split(a, sep) + parse::split(b, sep));
    }
}

/// Text without a separator is one field.
pub proof fn law_split_without_separator(s: Seq<u8>, sep: u8)
    requires
        !s.contains(sep),
    ensures
        parse::split(s, sep) == seq![s],
    decreases s.len(),
{
    if s.len() > 0 {
        assert(s.contains(s.last()));
        assert forall|b: u8| s.drop_last().contains(b) implies s.contains(b) by {
            let i = choose|i: int| 0 <= i < s.drop_last().len() && s.drop_last()[i] == b;
            assert(s[i] == b);
        }
        law_split_without_separator(s.drop_last(), sep);
        assert(s.drop_last().push(s.last()) =~= s);
        assert(parse::split(s, sep) =~= seq![s]);
    } else {
        assert(s =~= Seq::empty());
    }
}

/// The entry that stands last in a list counts: it replaces any earlier entry of
/// its key, and leaves every other key as it was.
pub proof fn law_last_entry_counts(list: Seq<u8>, field: Seq<u8>)
    requires
        !field.contains(',' as u8),
    ensures
        parse::keys_of(list + seq![',' as u8] + field) == parse::with_entry(
            parse::keys_of(list),
            field,
        ),
{
    law_split_at_separator(list, ',' as u8, field);
    law_split_without_separator(field, ',' as u8);
    let fields = parse::split(list, ',' as u8);
    assert((fields + seq![field]).drop_last() =~= fields);
}

proof fn lemma_skip_malformed(before: Seq<Seq<u8>>, malformed: Seq<u8>, after: Seq<Seq<u8>>)
    requires
        parse::entry(malformed) is None,
    ensures
        parse::entries(before + seq![malformed] + after) == parse::entries(before + after),
    decreases after.len(),
{
    let with = before + seq![malformed] + after;
    let without = before + after;
    if after.len() == 0 {
        assert(with.drop_last() =~= before);
        assert(without =~= before);
    } else {
        assert(with.drop_last() =~= before + seq![malformed] + after.drop_last());
        assert(without.drop_last() =~= before + after.drop_last());
        lemma_skip_malformed(before, malformed, after.drop_last());
    }
}

/// A malformed entry changes nothing, wherever in a list it stands: at its
/// start, between two parts of it, or at its end.
pub proof fn law_malformed_entries_are_skipped(
    before: Seq<u8>,
    malformed: Seq<u8>,
    after: Seq<u8>,
)
    requires
        !malformed.contains(',' as u8),
        parse::entry(malformed) is None,
    ensures
        parse::keys_of(malformed + seq![',' as u8] + after) == parse::keys_of(after),
        parse::keys_of(
            before + seq![',' as u8] + malformed + seq![',' as u8] + after,
        ) == parse::keys_of(before + seq![',' as u8] + after),
        parse::keys_of(before + seq![',' as u8] + malformed) == parse::keys_of(before),
{
    let comma = ',' as u8;
    law_split_without_separator(malformed, comma);
    let head = parse::split(before, comma);
    let tail = parse::split(after, comma);

    law_split_at_separator(malformed, comma, after);
    lemma_skip_malformed(Seq::empty(), malformed, tail);
    assert(Seq::<Seq<u8>>::empty() + seq![malformed] + tail =~= seq![malformed] + tail);
    assert(Seq::<Seq<u8>>::empty() + tail =~= tail);

    law_split_at_separator(before, comma, after);
    law_split_at_separator(before, comma, malformed);
    law_split_at_separator(before + seq![comma] + malformed, comma, after);
    lemma_skip_malformed(head, malformed, tail);

    law_last_entry_counts(before, malformed);
}

/// A well-formed entry behind a list sets its key.
pub proof fn law_entry_sets_its_key(list: Seq<u8>, key: u8, value: Seq<u8>)
    requires
        key < 128 && key != '=' as u8 && key != ',' as u8,
        forall|i: int| 0 <= i < value.len() ==> #[trigger] value[i] < 128 && value[i] != ',' as u8,
    ensures
        parse::keys_of(seq![key, '=' as u8] + value) == Map::<u8, Seq<u8>>::empty().insert(
            key,
            value,
        ),
        parse::keys_of(list + seq![',' as u8, key, '=' as u8] + value) == parse::keys_of(
            list,
        ).insert(key, value),
{
    let field = seq![key, '=' as u8] + value;
    assert(!field.contains(',' as u8)) by {
        if field.contains(',' as u8) {
            let i = choose|i: int| 0 <= i < field.len() && field[i] == ',' as u8;
            assert(i >= 2 && value[i - 2] == field[i]);
        }
    }
    assert(field.skip(2) =~= value);
    lemma_ascii_is_utf8(value);
    law_split_without_separator(field, ',' as u8);
    assert(seq![field].drop_last() =~= Seq::empty());
    assert(parse::entries(seq![field].drop_last()) == Map::<u8, Seq<u8>>::empty());
    law_last_entry_counts(list, field);
    assert(list + seq![',' as u8] + field =~= list + seq![',' as u8, key, '=' as u8] + value);
}

/// The first `;` parts a body into its control keys and its payload, which may
/// hold any bytes. A body without one is all keys.
pub proof fn law_body_is_parted(keys: Seq<u8>, payload: Seq<u8>)
    requires
        !keys.contains(';' as u8),
    ensures
        parse::head(keys + seq![';' as u8] + payload) == keys,
        parse::tail(keys + seq![';' as u8] + payload) == payload,
        parse::head(keys) == keys,
        parse::tail(keys) == Seq::<u8>::empty(),
{
    let body = keys + seq![';' as u8] + payload;
    let at = parse::first(body, ';' as u8);
    parse::lemma_first(body, ';' as u8);
    parse::lemma_first(keys, ';' as u8);
    assert(body[keys.len() as int] == ';' as u8);
    assert(at == keys.len()) by {
        if at < keys.len() {
            assert(keys[at] == ';' as u8);
            assert(keys.contains(';' as u8));
        }
    }
    assert(parse::head(body) =~= keys);
    assert(parse::tail(body) =~= payload);
    assert(parse::first(keys, ';' as u8) == keys.len()) by {
        if parse::first(keys, ';' as u8) < keys.len() {
            assert(keys.contains(';' as u8));
        }
    }
    assert(parse::head(keys) =~= keys);
}

/// The keys that a control is read from.
pub open spec fn is_known_key(key: u8) -> bool {
    ||| key == 'a' as u8
    ||| key == 'f' as u8
    ||| key == 't' as u8
    ||| key == 'i' as u8
    ||| key == 'I' as u8
    ||| key == 'p' as u8
    ||| key == 'm' as u8
    ||| key == 's' as u8
    ||| key == 'v' as u8
    ||| key == 'c' as u8
    ||| key == 'r' as u8
    ||| key == 'C' as u8
    ||| key == 'o' as u8
    ||| key == 'q' as u8
}

/// A key that is not known has no part in the control.
pub proof fn law_unknown_keys_are_ignored(keys: Map<u8, Seq<u8>>, key: u8, value: Seq<u8>)
    requires
        !is_known_key(key),
    ensures
        parse::control_of(keys.insert(key, value)) == parse::control_of(keys),
        key != 'd' as u8 ==> parse::delete_of(keys.insert(key, value)) == parse::delete_of(keys),
{
}

proof fn lemma_no_entries(fields: Seq<Seq<u8>>)
    requires
        forall|i: int| 0 <= i < fields.len() ==> parse::entry(#[trigger] fields[i]) is None,
    ensures
        parse::entries(fields) == Map::<u8, Seq<u8>>::empty(),
    decreases fields.len(),
{
    if fields.len() > 0 {
        let before = fields.drop_last();
        assert forall|i: int| 0 <= i < before.len() implies parse::entry(
            #[trigger] before[i],
        ) is None by {
            assert(before[i] == fields[i]);
        }
        lemma_no_entries(before);
        assert(parse::entry(fields[fields.len() - 1]) is None);
    }
}

proof fn lemma_one_entry(fields: Seq<Seq<u8>>, i: int)
    requires
        0 <= i < fields.len(),
        parse::entry(fields[i]) is Some,
    ensures
        parse::entries(fields).contains_key((parse::entry(fields[i])->0).0),
    decreases fields.len(),
{
    if i < fields.len() - 1 {
        assert(fields.drop_last()[i] == fields[i]);
        lemma_one_entry(fields.drop_last(), i);
    }
}

/// A key list is malformed exactly if there is text in it and none of its fields
/// is a well-formed entry.
pub proof fn law_malformed_list(list: Seq<u8>)
    ensures
        parse::is_malformed(list) <==> list.len() > 0 && forall|i: int|
            0 <= i < parse::split(list, ',' as u8).len() ==> parse::entry(
                #[trigger] parse::split(list, ',' as u8)[i],
            ) is None,
{
    let fields = parse::split(list, ',' as u8);
    if forall|i: int| 0 <= i < fields.len() ==> parse::entry(#[trigger] fields[i]) is None {
        lemma_no_entries(fields);
    } else {
        let i = choose|i: int|
            0 <= i < fields.len() && !(parse::entry(#[trigger] fields[i]) is None);
        lemma_one_entry(fields, i);
    }
}

/// Stray text is ignored: that is a body with some text, but no `=`, before its
/// first `;`.
pub proof fn law_stray_text_is_ignored(body: Seq<u8>)
    requires
        parse::head(body).len() > 0,
        !parse::head(body).contains('=' as u8),
    ensures
        parse::outcome_of(body) == OutcomeView::Ignore,
{
    let list = parse::head(body);
    let fields = parse::split(list, ',' as u8);
    lemma_split_is_part(list, ',' as u8);
    assert forall|i: int| 0 <= i < fields.len() implies parse::entry(
        #[trigger] fields[i],
    ) is None by {
        if fields[i].len() >= 2 {
            assert(fields[i].contains(fields[i][1]));
        }
    }
    lemma_no_entries(fields);
}

/// Fields hold nothing but bytes of the text that they come from.
proof fn lemma_split_is_part(s: Seq<u8>, sep: u8)
    ensures
        forall|i: int, b: u8|
            0 <= i < parse::split(s, sep).len() && #[trigger] parse::split(s, sep)[i].contains(b)
                ==> s.contains(b),
    decreases s.len(),
{
    if s.len() > 0 {
        let before = s.drop_last();
        lemma_split_is_not_empty(before, sep);
        lemma_split_is_part(before, sep);
        assert(s =~= before.push(s.last()));
        tables::lemma_push_contains(before, s.last());
        tables::lemma_push_contains(parse::split(before, sep).last(), s.last());
        assert forall|i: int, b: u8|
            0 <= i < parse::split(s, sep).len() && #[trigger] parse::split(s, sep)[i].contains(
                b,
            ) implies s.contains(b) by {
            let fields = parse::split(before, sep);
            if i < fields.len() - 1 || s.last() == sep && i < fields.len() {
                assert(parse::split(s, sep)[i] == fields[i]);
            } else if s.last() != sep {
                assert(parse::split(s, sep)[i] == fields.last().push(s.last()));
                assert(fields.last() == fields[fields.len() - 1]);
            }
        }
    }
}

/// A body without keys is a transmission with the default control, so that a
/// last chunk needs none.
pub proof fn law_body_without_keys_transmits(payload: Seq<u8>)
    ensures
        parse::outcome_of(seq![';' as u8] + payload) == (OutcomeView::Store {
            control: parse::control_of(Map::empty()),
            payload,
        }),
        parse::control_of(Map::empty()).action == KittyAction::Transmit,
        !parse::control_of(Map::empty()).more,
{
    let none = Seq::<u8>::empty();
    law_body_is_parted(none, payload);
    assert(none + seq![';' as u8] + payload =~= seq![';' as u8] + payload);
    law_split_without_separator(none, ',' as u8);
    lemma_no_entries(parse::split(none, ',' as u8));
}

/// A command that is stored transmits or places; queries, deletes and unknown
/// actions never come that way.
pub proof fn law_stored_commands_transmit_or_place(body: Seq<u8>)
    ensures
        match parse::outcome_of(body) {
            OutcomeView::Store { control, .. } => control.action == KittyAction::Transmit
                || control.action == KittyAction::TransmitAndDisplay || control.action
                == KittyAction::Place,
            _ => true,
        },
{
}

// ---------------------------------------------------------------------------
// Replies
// ---------------------------------------------------------------------------

/// Quiet mode: level zero hides nothing, level one hides the `OK` of the direct
/// medium, and every higher level hides all replies. What a level hides, a
/// higher level hides too.
pub proof fn law_quiet_levels(query: KittyQuery, louder: u8)
    requires
        louder <= query.quiet,
    ensures
        query::reply_of(query) is None <==> query.quiet >= 2 || query.quiet == 1 && query.medium
            == KittyMedium::Direct,
        query::reply_of(KittyQuery { quiet: louder, ..query }) is None ==> query::reply_of(
            query,
        ) is None,
{
}

/// A probe of the direct medium and a probe of another are never answered alike.
pub proof fn law_only_direct_is_ok(direct: KittyQuery, other: KittyQuery)
    requires
        direct.medium == KittyMedium::Direct,
        other.medium != KittyMedium::Direct,
        query::reply_of(direct) is Some,
        query::reply_of(other) is Some,
    ensures
        query::reply_of(direct) != query::reply_of(other),
{
    reveal_strlit("OK");
    reveal_strlit("EBADT");
    reveal_strlit("\x1b\\");
    let d = query::reply_of(direct)->0;
    let o = query::reply_of(other)->0;
    assert(d[d.len() - 3] == 'K' as u8);
    assert(o[o.len() - 3] == 'T' as u8);
}

} // verus!
