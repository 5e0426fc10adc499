//! Answers to support queries.
use vstd::prelude::*;

use crate::protocol::{KittyMedium, KittyQuery};
use crate::text::{self, push_decimal, push_text};

verus! {

/// `i=<id>`, where there is an id.
pub open spec fn id_key(id: Option<u32>) -> Seq<u8> {
    match id {
        Some(id) => text::ascii("i="@) + text::decimal(id as nat),
        None => Seq::empty(),
    }
}

/// `I=<number>`, where there is an image number.
pub open spec fn number_key(image_number: Option<u32>) -> Seq<u8> {
    match image_number {
        Some(n) => text::ascii("I="@) + text::decimal(n as nat),
        None => Seq::empty(),
    }
}

/// The keys that a reply echoes, with a comma between them where there are two.
pub open spec fn echoed_keys(query: KittyQuery) -> Seq<u8> {
    if query.id is Some && query.image_number is Some {
        id_key(query.id) + text::ascii(","@) + number_key(query.image_number)
    } else {
        id_key(query.id) + number_key(query.image_number)
    }
}

/// Whether the quiet level hides the reply: any level hides `OK`, two and above
/// hide errors as well.
pub open spec fn is_silenced(query: KittyQuery) -> bool {
    if query.medium == KittyMedium::Direct {
        query.quiet >= 1
    } else {
        query.quiet >= 2
    }
}

/// The status that answers a probe: `OK` for the direct medium, `EBADT` (bad
/// transmission medium) for every other.
pub open spec fn status(query: KittyQuery) -> Seq<u8> {
    if query.medium == KittyMedium::Direct {
        text::ascii("OK"@)
    } else {
        text::ascii("EBADT"@)
    }
}

/// The reply to a query: `ESC _ G <keys> ; <status> ESC \`, or none where the
/// query is silenced.
pub open spec fn reply_of(query: KittyQuery) -> Option<Seq<u8>> {
    if is_silenced(query) {
        None
    } else {
        Some(
            text::ascii("\x1b_G"@) + echoed_keys(query) + text::ascii(";"@) + status(query) + text::ascii(
                "\x1b\\"@,
            ),
        )
    }
}

impl KittyQuery {
    /// Whether a transmission on the probed medium can be ingested: the direct
    /// medium alone.
    pub fn medium_supported(&self) -> (r: bool)
        ensures
            r == (self.medium == KittyMedium::Direct),
    {
        matches!(self.medium, KittyMedium::Direct)
    }

    /// The reply for this query, or `None` where quiet mode suppresses it.
    ///
    /// A direct probe is answered with `OK`. A file or shared-memory probe is
    /// answered with `EBADT`, so that the application falls back to the direct
    /// medium. `q=1` suppresses `OK` alone; `q=2` suppresses errors too.
    pub fn reply(&self) -> (r: Option<Vec<u8>>)
        ensures
            match r {
                Some(bytes) => reply_of(*self) == Some(bytes@),
                None => reply_of(*self) is None,
            },
    {
        let supported = self.medium_supported();
        if supported && self.quiet >= 1 {
            return None;
        }
        if !supported && self.quiet >= 2 {
            return None;
        }
        proof {
            reveal_strlit("\x1b_G");
            reveal_strlit("i=");
            reveal_strlit(",");
            reveal_strlit("I=");
            reveal_strlit(";");
            reveal_strlit("OK");
            reveal_strlit("EBADT");
            reveal_strlit("\x1b\\");
        }
        let mut out: Vec<u8> = Vec::new();
        push_text(&mut out, "\x1b_G");
        if let Some(id) = self.id {
            push_text(&mut out, "i=");
            push_decimal(&mut out, id as u64);
        }
        if let Some(number) = self.image_number {
            if self.id.is_some() {
                push_text(&mut out, ",");
            }
            push_text(&mut out, "I=");
            push_decimal(&mut out, number as u64);
        }
        assert(out@ =~= text::ascii("\x1b_G"@) + echoed_keys(*self));
        push_text(&mut out, ";");
        if supported {
            push_text(&mut out, "OK");
        } else {
            push_text(&mut out, "EBADT");
        }
        push_text(&mut out, "\x1b\\");
        Some(out)
    }
}

} // verus!
