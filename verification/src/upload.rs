//! Reassembly of uploads that come in several chunks.
use vstd::prelude::*;

use crate::image::{self, decode_payload, image_dimensions};
use crate::protocol::KittyControl;
use crate::text::push_bytes;

verus! {

/// A finalized image. Its payload stays in base64, so that it can be
/// transmitted again as it came.
#[derive(Debug, Clone, PartialEq, Eq)]
pub struct FinishedImage {
    pub control: KittyControl,
    pub payload_b64: Vec<u8>,
    pub dimensions: Option<(u32, u32)>,
}

/// An upload in progress. The first chunk carries the control keys;
/// continuation chunks add payload.
#[derive(Debug, Clone, PartialEq, Eq)]
pub struct PendingUpload {
    control: KittyControl,
    payload_b64: Vec<u8>,
}

/// The contents of an upload in progress.
pub struct UploadView {
    /// The control of the first chunk.
    pub control: KittyControl,
    /// The payload of all chunks so far.
    pub payload: Seq<u8>,
}

/// The contents of a finalized image.
pub struct ImageView {
    pub control: KittyControl,
    pub payload: Seq<u8>,
    pub dimensions: Option<(u32, u32)>,
}

impl View for PendingUpload {
    type V = UploadView;

    closed spec fn view(&self) -> UploadView {
        UploadView { control: self.control, payload: self.payload_b64@ }
    }
}

impl View for FinishedImage {
    type V = ImageView;

    open spec fn view(&self) -> ImageView {
        ImageView {
            control: self.control,
            payload: self.payload_b64@,
            dimensions: self.dimensions,
        }
    }
}

/// The image that an upload ends in, given what its payload decodes to. A
/// payload that does not decode counts as empty, so that dimensions from the
/// control keys still stand.
pub open spec fn finished(upload: UploadView, decoded: Option<Seq<u8>>) -> ImageView {
    ImageView {
        control: upload.control,
        payload: upload.payload,
        dimensions: image::dimensions_of(
            upload.control,
            match decoded {
                Some(data) => data,
                None => Seq::empty(),
            },
        ),
    }
}

impl PendingUpload {
    /// Begins an upload from its first chunk.
    pub fn begin(control: KittyControl, first_chunk_b64: &[u8]) -> (r: Self)
        ensures
            r@ == (UploadView { control, payload: first_chunk_b64@ }),
    {
        PendingUpload { control, payload_b64: vstd::slice::slice_to_vec(first_chunk_b64) }
    }

    /// Appends the payload of a continuation chunk.
    pub fn append(&mut self, chunk_b64: &[u8])
        ensures
            final(self)@ == (UploadView {
                control: old(self)@.control,
                payload: old(self)@.payload + chunk_b64@,
            }),
    {
        push_bytes(&mut self.payload_b64, chunk_b64);
    }

    /// The image id that this upload addresses, if any.
    pub fn image_id(&self) -> (r: Option<u32>)
        ensures
            r == self@.control.image_id,
    {
        self.control.image_id
    }

    /// Finalizes the upload, with the dimensions that follow from its control
    /// and its decoded payload.
    pub fn finish(self) -> (r: FinishedImage)
        ensures
            r@ == finished(self@, image::base64_decoded(self@.payload)),
    {
        let decoded = decode_payload(self.payload_b64.as_slice());
        self.finish_decoded(decoded)
    }

    /// Finalizes the upload, given its decoded payload.
    pub fn finish_decoded(self, decoded: Option<Vec<u8>>) -> (r: FinishedImage)
        ensures
            r@ == finished(self@, image::bytes_of(decoded)),
    {
        let dimensions = match decoded {
            Some(data) => image_dimensions(&self.control, data.as_slice()),
            None => {
                let empty: Vec<u8> = Vec::new();
                image_dimensions(&self.control, empty.as_slice())
            },
        };
        FinishedImage { control: self.control, payload_b64: self.payload_b64, dimensions }
    }
}

} // verus!
