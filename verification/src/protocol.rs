//! The commands of the Kitty graphics protocol, as typed values.
//!
//! An application ships control data and image payloads inside APC sequences,
//! `ESC _ G <keys> ; <payload> ST`. The types here describe what one such
//! command asks for.
use vstd::prelude::*;

verus! {

/// What a parsed graphics command asks of the terminal.
#[derive(Debug, Clone, PartialEq, Eq)]
pub enum KittyOutcome {
    /// `a=q`: a support probe. It is answered and stores nothing.
    Query(KittyQuery),
    /// `a=t`, `a=T` or `a=p`: transmit, transmit and display, or place.
    Store(KittyCommand),
    /// `a=d`: delete images and placements.
    Delete(KittyDelete),
    /// Anything that is not handled: an action that is not known, or text that
    /// holds no control key, such as a stray SOS or PM message.
    Ignore,
}

/// A delete request (`a=d`).
#[derive(Debug, Clone, Copy, PartialEq, Eq)]
pub enum KittyDelete {
    /// `d=i,i=<id>`: one image and its placements.
    ById(u32),
    /// `d=a`: every image and placement.
    All,
    /// Any other selector. It deletes nothing.
    Unsupported,
}

/// A support query (`a=q`), with what its reply needs.
#[derive(Debug, Clone, Copy, PartialEq, Eq)]
pub struct KittyQuery {
    /// `i=`: the image id chosen by the application, echoed in the reply.
    pub id: Option<u32>,
    /// `I=`: the image number, echoed in the reply.
    pub image_number: Option<u32>,
    /// `q=`: `1` suppresses OK replies, `2` suppresses errors as well.
    pub quiet: u8,
    /// `t=`: the transmission medium that is probed.
    pub medium: KittyMedium,
}

/// One chunk of a transmit, display or place command.
#[derive(Debug, Clone, PartialEq, Eq)]
pub struct KittyCommand {
    pub control: KittyControl,
    /// The bytes behind the `;` separator: base64, not yet decoded.
    pub payload: Vec<u8>,
}

/// The action that the `a=` key requests.
#[derive(Debug, Clone, Copy, PartialEq, Eq, Structural)]
pub enum KittyAction {
    /// `t`: transmit only. The default.
    Transmit,
    /// `T`: transmit and display.
    TransmitAndDisplay,
    /// `p`: place an image that was transmitted before.
    Place,
    /// `d`: delete.
    Delete,
    /// `q`: query.
    Query,
    /// Any other action.
    Unknown,
}

/// Pixel format of the transmitted data (`f=`).
#[derive(Debug, Clone, Copy, PartialEq, Eq, Structural)]
pub enum KittyFormat {
    /// `f=24`: packed RGB.
    Rgb,
    /// `f=32`: packed RGBA. The default.
    Rgba,
    /// `f=100`: PNG.
    Png,
}

/// Transmission medium (`t=`).
#[derive(Debug, Clone, Copy, PartialEq, Eq, Structural)]
pub enum KittyMedium {
    /// `t=d`: the payload itself, in base64. The default, and the only medium
    /// that is supported.
    Direct,
    /// `t=f`: the path of a regular file.
    File,
    /// `t=t`: the path of a temporary file.
    TempFile,
    /// `t=s`: a POSIX shared-memory object.
    SharedMemory,
}

/// The control keys of a command.
#[derive(Debug, Clone, Copy, PartialEq, Eq)]
pub struct KittyControl {
    pub action: KittyAction,
    pub format: KittyFormat,
    pub medium: KittyMedium,
    /// `i=`: image id chosen by the application.
    pub image_id: Option<u32>,
    /// `I=`: image number.
    pub image_number: Option<u32>,
    /// `p=`: placement id.
    pub placement_id: Option<u32>,
    /// `m=1`: more chunks follow.
    pub more: bool,
    /// `s=`: source width in pixels.
    pub src_width: Option<u32>,
    /// `v=`: source height in pixels.
    pub src_height: Option<u32>,
    /// `c=`: columns to scale the image into.
    pub target_cols: Option<u32>,
    /// `r=`: rows to scale the image into.
    pub target_rows: Option<u32>,
    /// Whether the cursor moves after a placement: all but `C=1`.
    pub move_cursor: bool,
    /// `o=z`: the payload is zlib-compressed.
    pub compressed: bool,
    /// `q=`: quiet level.
    pub quiet: u8,
}

/// The contents of a [`KittyOutcome`].
pub enum OutcomeView {
    Query(KittyQuery),
    Store { control: KittyControl, payload: Seq<u8> },
    Delete(KittyDelete),
    Ignore,
}

impl View for KittyOutcome {
    type V = OutcomeView;

    open spec fn view(&self) -> OutcomeView {
        match *self {
            KittyOutcome::Query(query) => OutcomeView::Query(query),
            KittyOutcome::Store(command) => OutcomeView::Store {
                control: command.control,
                payload: command.payload@,
            },
            KittyOutcome::Delete(delete) => OutcomeView::Delete(delete),
            KittyOutcome::Ignore => OutcomeView::Ignore,
        }
    }
}

impl Default for KittyMedium {
    fn default() -> (r: Self)
        ensures
            r == KittyMedium::Direct,
    {
        KittyMedium::Direct
    }
}

impl Default for KittyQuery {
    fn default() -> (r: Self)
        ensures
            r == (KittyQuery { id: None, image_number: None, quiet: 0, medium: KittyMedium::Direct }),
    {
        KittyQuery { id: None, image_number: None, quiet: 0, medium: KittyMedium::Direct }
    }
}

impl KittyControl {
    /// Whether the command's payload comes on a medium that is supported: the
    /// direct one alone.
    pub fn medium_supported(&self) -> (r: bool)
        ensures
            r == (self.medium == KittyMedium::Direct),
    {
        matches!(self.medium, KittyMedium::Direct)
    }
}

} // verus!
