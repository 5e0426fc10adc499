//! Laws of the sequences that are sent: the command grammar reads them back.
use vstd::prelude::*;

use crate::parse;
use crate::parse_laws;
use crate::protocol::{
    KittyAction, KittyControl, KittyDelete, KittyFormat, KittyMedium, OutcomeView,
};
use crate::render::{self, KittyChunkSpec};
use crate::text;

verus! {

/// The body of a command: what stands between `ESC _ G` and `ESC \`.
pub open spec fn body(sequence: Seq<u8>) -> Seq<u8> {
    sequence.subrange(3, sequence.len() - 2)
}

/// The control of a command that sets no key but its action.
pub open spec fn plain_control(action: KittyAction) -> KittyControl {
    KittyControl {
        action,
        format: KittyFormat::Rgba,
        medium: KittyMedium::Direct,
        image_id: None,
        image_number: None,
        placement_id: None,
        more: false,
        src_width: None,
        src_height: None,
        target_cols: None,
        target_rows: None,
        move_cursor: true,
        compressed: false,
        quiet: 0,
    }
}

/// Whether text can stand among control keys as it is.
spec fn is_key_text(s: Seq<u8>) -> bool {
    !s.contains(';' as u8)
}

proof fn lemma_key_text_add(a: Seq<u8>, b: Seq<u8>)
    requires
        is_key_text(a),
        is_key_text(b),
    ensures
        is_key_text(a + b),
{
    if (a + b).contains(';' as u8) {
        let i = choose|i: int| 0 <= i < (a + b).len() && (a + b)[i] == ';' as u8;
        if i < a.len() {
            assert(a.contains(a[i]));
        } else {
            assert(b.contains(b[i - a.len()]));
        }
    }
}

/// What opens every sequence.
spec fn opening() -> Seq<u8> {
    seq![0x1bu8, '_' as u8, 'G' as u8]
}

/// A sequence without its opening and its end is its body.
proof fn lemma_body(list: Seq<u8>, end: Seq<u8>)
    requires
        end.len() == 2,
    ensures
        body(opening() + list + end) == list,
{
    assert(body(opening() + list + end) =~= list);
}

/// A key with a number, behind a list of keys.
proof fn lemma_then_number(list: Seq<u8>, text: Seq<char>, key: u8, n: nat) -> (r: Seq<u8>)
    requires
        key < 128 && key != '=' as u8 && key != ',' as u8 && key != ';' as u8,
        text::ascii(text) =~= seq![',' as u8, key, '=' as u8],
        is_key_text(list),
    ensures
        opening() + r == opening() + list + render::key(text, n),
        parse::keys_of(r) == parse::keys_of(list).insert(key, text::decimal(n)),
        is_key_text(r),
{
    let digits = text::decimal(n);
    parse_laws::lemma_decimal(n);
    assert forall|i: int| 0 <= i < digits.len() implies #[trigger] digits[i] < 128 && digits[i]
        != ',' as u8 by {
        assert(text::is_digit(digits[i]));
    }
    parse_laws::law_entry_sets_its_key(list, key, digits);
    assert(is_key_text(digits)) by {
        if digits.contains(';' as u8) {
            let i = choose|i: int| 0 <= i < digits.len() && digits[i] == ';' as u8;
            assert(text::is_digit(digits[i]));
        }
    }
    lemma_key_text_add(list, seq![',' as u8, key, '=' as u8]);
    lemma_key_text_add(list + seq![',' as u8, key, '=' as u8], digits);
    let r = list + seq![',' as u8, key, '=' as u8] + digits;
    assert(opening() + r =~= opening() + list + render::key(text, n));
    r
}

/// A key with a one-character value, behind a list of keys.
proof fn lemma_then_letter(list: Seq<u8>, key: u8, value: u8) -> (r: Seq<u8>)
    requires
        key < 128 && key != '=' as u8 && key != ',' as u8 && key != ';' as u8,
        value < 128 && value != ',' as u8 && value != ';' as u8,
        is_key_text(list),
    ensures
        r == list + seq![',' as u8, key, '=' as u8, value],
        opening() + r == opening() + list + seq![',' as u8, key, '=' as u8, value],
        parse::keys_of(r) == parse::keys_of(list).insert(key, seq![value]),
        is_key_text(r),
{
    let r = list + seq![',' as u8, key, '=' as u8, value];
    parse_laws::law_entry_sets_its_key(list, key, seq![value]);
    assert(list + seq![',' as u8, key, '=' as u8] + seq![value] =~= r);
    assert(opening() + r =~= opening() + list + seq![',' as u8, key, '=' as u8, value]);
    lemma_key_text_add(list, seq![',' as u8, key, '=' as u8, value]);
    r
}

/// The keys `a=<action>`, `q=2` and `i=<id>`, which open a sequence that
/// transmits or places.
proof fn lemma_addressed(text: Seq<char>, action: u8, outer_id: u32) -> (r: Seq<u8>)
    requires
        action < 128 && action != ',' as u8 && action != ';' as u8,
        text::ascii(text) =~= opening() + seq![
            'a' as u8,
            '=' as u8,
            action,
            ',' as u8,
            'q' as u8,
            '=' as u8,
            '2' as u8,
            ',' as u8,
            'i' as u8,
            '=' as u8,
        ],
    ensures
        opening() + r == render::key(text, outer_id as nat),
        is_key_text(r),
        parse::keys_of(r) == Map::<u8, Seq<u8>>::empty().insert('a' as u8, seq![action]).insert(
            'q' as u8,
            seq!['2' as u8],
        ).insert('i' as u8, text::decimal(outer_id as nat)),
{
    reveal_strlit(",i=");
    let first = seq!['a' as u8, '=' as u8, action];
    parse_laws::law_entry_sets_its_key(Seq::empty(), 'a' as u8, seq![action]);
    assert(seq!['a' as u8, '=' as u8] + seq![action] =~= first);
    let second = lemma_then_letter(first, 'q' as u8, '2' as u8);
    assert(text::ascii(",i="@) =~= seq![',' as u8, 'i' as u8, '=' as u8]);
    let r = lemma_then_number(second, ",i="@, 'i' as u8, outer_id as nat);
    assert(opening() + second + text::ascii(",i="@) =~= text::ascii(text));
    assert(opening() + second + render::key(",i="@, outer_id as nat) =~= render::key(
        text,
        outer_id as nat,
    ));
    r
}

/// A number key reads back as its number.
proof fn lemma_read_u32(keys: Map<u8, Seq<u8>>, key: char, n: u32)
    requires
        keys.contains_key(key as u8),
        keys[key as u8] == text::decimal(n as nat),
    ensures
        parse::key_u32(keys, key) == Some(n),
{
    parse_laws::law_decimal_reads_back(n as nat, u32::MAX as nat);
}

/// The quiet level two.
proof fn lemma_read_quiet(keys: Map<u8, Seq<u8>>)
    requires
        keys.contains_key('q' as u8),
        keys['q' as u8] == seq!['2' as u8],
    ensures
        parse::quiet_of(keys) == 2,
{
    assert(text::decimal(2) =~= seq!['2' as u8]);
    parse_laws::law_decimal_reads_back(2, u8::MAX as nat);
}

/// A delete sequence reads back as the delete of its image.
pub proof fn law_delete_reads_back(outer_id: u32)
    ensures
        parse::outcome_of(body(render::delete_sequence(outer_id))) == OutcomeView::Delete(
            KittyDelete::ById(outer_id),
        ),
{
    reveal_strlit("\x1b_Ga=d,d=i,q=2,i=");
    reveal_strlit("\x1b\\");
    reveal_strlit(",i=");
    reveal_strlit("t");
    reveal_strlit("T");
    reveal_strlit("p");
    reveal_strlit("d");
    reveal_strlit("q");
    reveal_strlit("a");
    reveal_strlit("A");
    reveal_strlit("i");
    let first = seq!['a' as u8, '=' as u8, 'd' as u8];
    parse_laws::law_entry_sets_its_key(Seq::empty(), 'a' as u8, seq!['d' as u8]);
    assert(seq!['a' as u8, '=' as u8] + seq!['d' as u8] =~= first);
    let second = lemma_then_letter(first, 'd' as u8, 'i' as u8);
    let third = lemma_then_letter(second, 'q' as u8, '2' as u8);
    assert(text::ascii(",i="@) =~= seq![',' as u8, 'i' as u8, '=' as u8]);
    let list = lemma_then_number(third, ",i="@, 'i' as u8, outer_id as nat);
    assert(opening() + third + render::key(",i="@, outer_id as nat) =~= render::key(
        "\x1b_Ga=d,d=i,q=2,i="@,
        outer_id as nat,
    ));
    lemma_body(list, text::ascii("\x1b\\"@));
    parse_laws::law_body_is_parted(list, Seq::empty());
    let keys = parse::keys_of(list);
    lemma_read_u32(keys, 'i', outer_id);
    assert(text::ascii("d"@) =~= seq!['d' as u8]);
    assert(text::ascii("i"@) =~= seq!['i' as u8]);
    assert(keys['a' as u8][0] == 'd' as u8);
    assert(keys['d' as u8][0] == 'i' as u8);
    assert(text::ascii("t"@)[0] == 't' as u8);
    assert(text::ascii("T"@)[0] == 'T' as u8);
    assert(text::ascii("p"@)[0] == 'p' as u8);
    assert(text::ascii("a"@)[0] == 'a' as u8);
    assert(text::ascii("A"@)[0] == 'A' as u8);
}

/// The number, where a key can hold it.
pub open spec fn as_key_number(n: usize) -> Option<u32> {
    if n <= u32::MAX {
        Some(n as u32)
    } else {
        None
    }
}

/// The format that an `f=` value stands for.
pub open spec fn format_of_number(n: u32) -> KittyFormat {
    if n == 24 {
        KittyFormat::Rgb
    } else if n == 100 {
        KittyFormat::Png
    } else {
        KittyFormat::Rgba
    }
}

proof fn lemma_read_usize(keys: Map<u8, Seq<u8>>, key: char, n: usize)
    requires
        keys.contains_key(key as u8),
        keys[key as u8] == text::decimal(n as nat),
    ensures
        parse::key_u32(keys, key) == as_key_number(n),
{
    parse_laws::law_decimal_reads_back(n as nat, u32::MAX as nat);
}

proof fn lemma_read_format(keys: Map<u8, Seq<u8>>, n: u32)
    requires
        keys.contains_key('f' as u8),
        keys['f' as u8] == text::decimal(n as nat),
    ensures
        parse::format_of(keys) == format_of_number(n),
{
    reveal_strlit("24");
    reveal_strlit("100");
    reveal_with_fuel(text::decimal, 4);
    assert(text::ascii("24"@) =~= text::decimal(24));
    assert(text::ascii("100"@) =~= text::decimal(100));
    parse_laws::lemma_decimal(n as nat);
    parse_laws::lemma_decimal(24);
    parse_laws::lemma_decimal(100);
}

/// The action of a one-letter value.
proof fn lemma_read_action(keys: Map<u8, Seq<u8>>, letter: char)
    requires
        keys.contains_key('a' as u8),
        keys['a' as u8] == seq![letter as u8],
        letter == 't' || letter == 'p',
    ensures
        parse::action_of(keys) == (if letter == 't' {
            KittyAction::Transmit
        } else {
            KittyAction::Place
        }),
{
    reveal_strlit("t");
    reveal_strlit("T");
    reveal_strlit("p");
    assert(text::ascii("t"@) =~= seq!['t' as u8]);
    assert(text::ascii("p"@) =~= seq!['p' as u8]);
    assert(keys['a' as u8][0] == letter as u8);
    assert(text::ascii("T"@)[0] == 'T' as u8);
    assert(text::ascii("t"@)[0] == 't' as u8);
}

/// The control that a transmit sequence states.
pub open spec fn transmitted_control(outer_id: u32, chunk: KittyChunkSpec) -> KittyControl {
    KittyControl {
        format: format_of_number(chunk.format),
        image_id: Some(outer_id),
        src_width: if chunk.format != 100 {
            as_key_number(chunk.full_width)
        } else {
            None
        },
        src_height: if chunk.format != 100 {
            as_key_number(chunk.full_height)
        } else {
            None
        },
        compressed: chunk.compressed,
        quiet: 2,
        ..plain_control(KittyAction::Transmit)
    }
}

/// The key part of a transmit sequence.
spec fn transmit_keys(outer_id: u32, chunk: KittyChunkSpec) -> Seq<u8> {
    let addressed = render::key("\x1b_Ga=t,q=2,i="@, outer_id as nat) + render::key(
        ",f="@,
        chunk.format as nat,
    );
    let compressed = if chunk.compressed {
        addressed + text::ascii(",o=z"@)
    } else {
        addressed
    };
    if chunk.format != 100 {
        compressed + render::key(",s="@, chunk.full_width as nat) + render::key(
            ",v="@,
            chunk.full_height as nat,
        )
    } else {
        compressed
    }
}

proof fn lemma_transmit_parts(outer_id: u32, chunk: KittyChunkSpec, list: Seq<u8>)
    requires
        opening() + list == transmit_keys(outer_id, chunk),
    ensures
        body(render::transmit_sequence(outer_id, chunk)) == list + seq![';' as u8]
            + chunk.payload_b64@,
{
    reveal_strlit(";");
    reveal_strlit("\x1b\\");
    let end = text::ascii("\x1b\\"@);
    let payload = chunk.payload_b64@;
    let semicolon = text::ascii(";"@);
    assert(semicolon =~= seq![';' as u8]);
    let sequence = render::transmit_sequence(outer_id, chunk);
    assert(sequence =~= opening() + list + semicolon + payload + end);
    assert(sequence =~= opening() + (list + semicolon + payload) + end);
    lemma_body(list + semicolon + payload, end);
}

/// A transmit sequence reads back as the transmission of its image: the payload
/// comes out as it went in, with its format, and with its dimensions where the
/// format is raw.
pub proof fn law_transmit_reads_back(outer_id: u32, chunk: KittyChunkSpec)
    ensures
        parse::outcome_of(body(render::transmit_sequence(outer_id, chunk))) == (
        OutcomeView::Store {
            control: transmitted_control(outer_id, chunk),
            payload: chunk.payload_b64@,
        }),
{
    reveal_strlit("\x1b_Ga=t,q=2,i=");
    reveal_strlit(",f=");
    reveal_strlit(",o=z");
    reveal_strlit(",s=");
    reveal_strlit(",v=");
    reveal_strlit(";");
    reveal_strlit("\x1b\\");
    reveal_strlit("z");
    let head = "\x1b_Ga=t,q=2,i="@;
    let list_i = lemma_addressed(head, 't' as u8, outer_id);
    let list_f = lemma_then_number(list_i, ",f="@, 'f' as u8, chunk.format as nat);
    let list_o = if chunk.compressed {
        lemma_then_letter(list_f, 'o' as u8, 'z' as u8)
    } else {
        list_f
    };
    let all = if chunk.format != 100 {
        let list_s = lemma_then_number(list_o, ",s="@, 's' as u8, chunk.full_width as nat);
        lemma_then_number(list_s, ",v="@, 'v' as u8, chunk.full_height as nat)
    } else {
        list_o
    };
    assert(text::ascii(",o=z"@) =~= seq![',' as u8, 'o' as u8, '=' as u8, 'z' as u8]);
    lemma_transmit_parts(outer_id, chunk, all);
    parse_laws::law_body_is_parted(all, chunk.payload_b64@);
    let keys = parse::keys_of(all);
    lemma_read_action(keys, 't');
    lemma_read_u32(keys, 'i', outer_id);
    lemma_read_format(keys, chunk.format);
    lemma_read_quiet(keys);
    if chunk.format != 100 {
        lemma_read_usize(keys, 's', chunk.full_width);
        lemma_read_usize(keys, 'v', chunk.full_height);
    }
    assert(text::ascii("z"@) =~= seq!['z' as u8]);
    assert(parse::control_of(keys) == transmitted_control(outer_id, chunk));
}

/// The control that a place sequence states.
pub open spec fn placed_control(outer_id: u32, chunk: KittyChunkSpec) -> KittyControl {
    KittyControl {
        image_id: Some(outer_id),
        placement_id: Some(chunk.placement_id),
        target_cols: chunk.target_cols,
        target_rows: chunk.target_rows,
        move_cursor: false,
        quiet: 2,
        ..plain_control(KittyAction::Place)
    }
}

/// The keys that every place sequence sets.
spec fn crop_keys(outer_id: u32, chunk: KittyChunkSpec) -> Map<u8, Seq<u8>> {
    Map::<u8, Seq<u8>>::empty().insert('a' as u8, seq!['p' as u8]).insert(
        'q' as u8,
        seq!['2' as u8],
    ).insert('i' as u8, text::decimal(outer_id as nat)).insert(
        'p' as u8,
        text::decimal(chunk.placement_id as nat),
    ).insert('x' as u8, text::decimal(chunk.src_x as nat)).insert(
        'y' as u8,
        text::decimal(chunk.src_y as nat),
    ).insert('w' as u8, text::decimal(chunk.src_width as nat)).insert(
        'h' as u8,
        text::decimal(chunk.src_height as nat),
    )
}

/// The part of a place sequence up to the crop.
proof fn lemma_crop(outer_id: u32, chunk: KittyChunkSpec) -> (r: Seq<u8>)
    ensures
        is_key_text(r),
        parse::keys_of(r) == crop_keys(outer_id, chunk),
        opening() + r == render::key("\x1b_Ga=p,q=2,i="@, outer_id as nat) + render::key(
            ",p="@,
            chunk.placement_id as nat,
        ) + render::key(",x="@, chunk.src_x as nat) + render::key(",y="@, chunk.src_y as nat)
            + render::key(",w="@, chunk.src_width as nat) + render::key(
            ",h="@,
            chunk.src_height as nat,
        ),
{
    reveal_strlit("\x1b_Ga=p,q=2,i=");
    reveal_strlit(",p=");
    reveal_strlit(",x=");
    reveal_strlit(",y=");
    reveal_strlit(",w=");
    reveal_strlit(",h=");
    let list_i = lemma_addressed("\x1b_Ga=p,q=2,i="@, 'p' as u8, outer_id);
    let list_p = lemma_then_number(list_i, ",p="@, 'p' as u8, chunk.placement_id as nat);
    let list_x = lemma_then_number(list_p, ",x="@, 'x' as u8, chunk.src_x as nat);
    let list_y = lemma_then_number(list_x, ",y="@, 'y' as u8, chunk.src_y as nat);
    let list_w = lemma_then_number(list_y, ",w="@, 'w' as u8, chunk.src_width as nat);
    lemma_then_number(list_w, ",h="@, 'h' as u8, chunk.src_height as nat)
}

/// The keys with one more where there is a number for it.
spec fn with_optional(keys: Map<u8, Seq<u8>>, key: u8, n: Option<u32>) -> Map<u8, Seq<u8>> {
    match n {
        Some(n) => keys.insert(key, text::decimal(n as nat)),
        None => keys,
    }
}

/// A key with a number or none, behind a list of keys.
proof fn lemma_then_optional(list: Seq<u8>, text: Seq<char>, key: u8, n: Option<u32>) -> (r: Seq<
    u8,
>)
    requires
        key < 128 && key != '=' as u8 && key != ',' as u8 && key != ';' as u8,
        text::ascii(text) =~= seq![',' as u8, key, '=' as u8],
        is_key_text(list),
    ensures
        opening() + r == opening() + list + render::optional_key(text, n),
        parse::keys_of(r) == with_optional(parse::keys_of(list), key, n),
        is_key_text(r),
{
    match n {
        Some(n) => lemma_then_number(list, text, key, n as nat),
        None => {
            assert(opening() + list + Seq::<u8>::empty() =~= opening() + list);
            list
        },
    }
}

/// The key list of a place sequence.
proof fn lemma_place_keys(outer_id: u32, chunk: KittyChunkSpec) -> (r: Seq<u8>)
    ensures
        body(render::place_sequence(outer_id, chunk)) == r,
        is_key_text(r),
        parse::keys_of(r) == with_optional(
            with_optional(crop_keys(outer_id, chunk), 'c' as u8, chunk.target_cols),
            'r' as u8,
            chunk.target_rows,
        ).insert('C' as u8, seq!['1' as u8]),
{
    reveal_strlit(",c=");
    reveal_strlit(",r=");
    reveal_strlit(",C=1\x1b\\");
    let list_h = lemma_crop(outer_id, chunk);
    let list_c = lemma_then_optional(list_h, ",c="@, 'c' as u8, chunk.target_cols);
    let list_r = lemma_then_optional(list_c, ",r="@, 'r' as u8, chunk.target_rows);
    let r = lemma_then_letter(list_r, 'C' as u8, '1' as u8);
    let end = seq![0x1bu8, '\\' as u8];
    let last = seq![',' as u8, 'C' as u8, '=' as u8, '1' as u8];
    assert(text::ascii(",C=1\x1b\\"@) =~= last + end);
    assert(opening() + list_r + last + end =~= opening() + list_r + (last + end));
    lemma_body(r, end);
    r
}

/// A place sequence reads back as the placement of its image, with its target
/// cells, and without a movement of the cursor.
pub proof fn law_place_reads_back(outer_id: u32, chunk: KittyChunkSpec)
    ensures
        parse::outcome_of(body(render::place_sequence(outer_id, chunk))) == (OutcomeView::Store {
            control: placed_control(outer_id, chunk),
            payload: Seq::<u8>::empty(),
        }),
{
    let list = lemma_place_keys(outer_id, chunk);
    parse_laws::law_body_is_parted(list, Seq::empty());
    let keys = parse::keys_of(list);
    lemma_read_action(keys, 'p');
    lemma_read_u32(keys, 'i', outer_id);
    lemma_read_u32(keys, 'p', chunk.placement_id);
    lemma_read_quiet(keys);
    if let Some(cols) = chunk.target_cols {
        lemma_read_u32(keys, 'c', cols);
    }
    if let Some(rows) = chunk.target_rows {
        lemma_read_u32(keys, 'r', rows);
    }
    assert(text::decimal(1) =~= seq!['1' as u8]);
    lemma_read_u32(keys, 'C', 1);
    assert(parse::control_of(keys) == placed_control(outer_id, chunk));
}

// ---------------------------------------------------------------------------
// The bytes of each sequence
// ---------------------------------------------------------------------------

/// A comma, a key, `=`, and a number in decimal.
pub open spec fn numbered(key: char, n: nat) -> Seq<u8> {
    seq![',' as u8, key as u8, '=' as u8] + text::decimal(n)
}

/// As [`numbered`] where there is a number, else nothing.
pub open spec fn numbered_if(key: char, n: Option<u32>) -> Seq<u8> {
    if n is Some {
        numbered(key, n->0 as nat)
    } else {
        Seq::empty()
    }
}

/// `ESC _ G a=<action>`.
pub open spec fn command_start(action: char) -> Seq<u8> {
    seq![0x1bu8, '_' as u8, 'G' as u8, 'a' as u8, '=' as u8, action as u8]
}

/// `,q=2`: no reply is wanted.
pub open spec fn silence() -> Seq<u8> {
    seq![',' as u8, 'q' as u8, '=' as u8, '2' as u8]
}

/// `ESC \`.
pub open spec fn command_end() -> Seq<u8> {
    seq![0x1bu8, '\\' as u8]
}

proof fn lemma_key_bytes(text: Seq<char>, key: char, n: nat)
    requires
        text::ascii(text) =~= seq![',' as u8, key as u8, '=' as u8],
    ensures
        render::key(text, n) == numbered(key, n),
{
}

/// A transmit sequence byte for byte: `a=t`, silence, the outer id, the format,
/// `o=z` exactly where the image is compressed, the dimensions exactly where the
/// format is not PNG, and the payload.
pub proof fn law_transmit_bytes(outer_id: u32, chunk: KittyChunkSpec)
    ensures
        render::transmit_sequence(outer_id, chunk) == command_start('t') + silence() + numbered(
            'i',
            outer_id as nat,
        ) + numbered('f', chunk.format as nat) + (if chunk.compressed {
            seq![',' as u8, 'o' as u8, '=' as u8, 'z' as u8]
        } else {
            Seq::empty()
        }) + (if chunk.format != 100 {
            numbered('s', chunk.full_width as nat) + numbered('v', chunk.full_height as nat)
        } else {
            Seq::empty()
        }) + seq![';' as u8] + chunk.payload_b64@ + command_end(),
{
    reveal_strlit("\x1b_Ga=t,q=2,i=");
    reveal_strlit(",f=");
    reveal_strlit(",o=z");
    reveal_strlit(",s=");
    reveal_strlit(",v=");
    reveal_strlit(";");
    reveal_strlit("\x1b\\");
    assert(render::key("\x1b_Ga=t,q=2,i="@, outer_id as nat) =~= command_start('t') + silence()
        + numbered('i', outer_id as nat));
    lemma_key_bytes(",f="@, 'f', chunk.format as nat);
    lemma_key_bytes(",s="@, 's', chunk.full_width as nat);
    lemma_key_bytes(",v="@, 'v', chunk.full_height as nat);
    assert(text::ascii(",o=z"@) =~= seq![',' as u8, 'o' as u8, '=' as u8, 'z' as u8]);
    assert(text::ascii(";"@) =~= seq![';' as u8]);
    assert(text::ascii("\x1b\\"@) =~= command_end());
}

/// A place sequence byte for byte: `a=p`, silence, the outer id, the placement
/// id, the crop, the target cells exactly where they are given, and `C=1`.
pub proof fn law_place_bytes(outer_id: u32, chunk: KittyChunkSpec)
    ensures
        render::place_sequence(outer_id, chunk) == command_start('p') + silence() + numbered(
            'i',
            outer_id as nat,
        ) + numbered('p', chunk.placement_id as nat) + numbered('x', chunk.src_x as nat) + numbered(
            'y',
            chunk.src_y as nat,
        ) + numbered('w', chunk.src_width as nat) + numbered('h', chunk.src_height as nat)
            + numbered_if('c', chunk.target_cols) + numbered_if('r', chunk.target_rows) + (seq![
            ',' as u8,
            'C' as u8,
            '=' as u8,
            '1' as u8,
        ] + command_end()),
{
    reveal_strlit("\x1b_Ga=p,q=2,i=");
    reveal_strlit(",p=");
    reveal_strlit(",x=");
    reveal_strlit(",y=");
    reveal_strlit(",w=");
    reveal_strlit(",h=");
    reveal_strlit(",c=");
    reveal_strlit(",r=");
    reveal_strlit(",C=1\x1b\\");
    assert(render::key("\x1b_Ga=p,q=2,i="@, outer_id as nat) =~= command_start('p') + silence()
        + numbered('i', outer_id as nat));
    lemma_key_bytes(",p="@, 'p', chunk.placement_id as nat);
    lemma_key_bytes(",x="@, 'x', chunk.src_x as nat);
    lemma_key_bytes(",y="@, 'y', chunk.src_y as nat);
    lemma_key_bytes(",w="@, 'w', chunk.src_width as nat);
    lemma_key_bytes(",h="@, 'h', chunk.src_height as nat);
    if chunk.target_cols is Some {
        lemma_key_bytes(",c="@, 'c', chunk.target_cols->0 as nat);
    }
    if chunk.target_rows is Some {
        lemma_key_bytes(",r="@, 'r', chunk.target_rows->0 as nat);
    }
    assert(text::ascii(",C=1\x1b\\"@) =~= seq![',' as u8, 'C' as u8, '=' as u8, '1' as u8]
        + command_end());
}

/// The delete sequences byte for byte: `a=d`, `d=i`, silence, the outer id, and,
/// for one placement, its id.
pub proof fn law_delete_bytes(outer_id: u32, placement_id: u32)
    ensures
        render::delete_sequence(outer_id) == command_start('d') + seq![
            ',' as u8,
            'd' as u8,
            '=' as u8,
            'i' as u8,
        ] + silence() + numbered('i', outer_id as nat) + command_end(),
        render::delete_placement_sequence(outer_id, placement_id) == command_start('d') + seq![
            ',' as u8,
            'd' as u8,
            '=' as u8,
            'i' as u8,
        ] + silence() + numbered('i', outer_id as nat) + numbered('p', placement_id as nat)
            + command_end(),
{
    reveal_strlit("\x1b_Ga=d,d=i,q=2,i=");
    reveal_strlit(",p=");
    reveal_strlit("\x1b\\");
    assert(render::key("\x1b_Ga=d,d=i,q=2,i="@, outer_id as nat) =~= command_start('d') + seq![
        ',' as u8,
        'd' as u8,
        '=' as u8,
        'i' as u8,
    ] + silence() + numbered('i', outer_id as nat));
    lemma_key_bytes(",p="@, 'p', placement_id as nat);
    assert(text::ascii("\x1b\\"@) =~= command_end());
}

} // verus!
