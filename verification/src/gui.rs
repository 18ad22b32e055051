//! The preview application: what it remembers, and what it says.

use crate::export::{bytes_for_export, image_fits, ExportError};
use crate::text::{decimal, push_decimal, push_signed, signed_decimal};
use crate::types::WorkerEvent;
use vstd::prelude::*;

verus! {

/// The state of the preview application.
#[derive(Debug)]
pub struct LongShotApp {
    /// The image in RGBA bytes, for the clipboard and for files, with its width
    /// and height.
    pub raw_image: Option<(Vec<u8>, u32, u32)>,
    pub status: String,
    pub frame_count: u32,
    pub total_height: i32,
    pub is_capturing: bool,
    pub error_msg: Option<String>,
    pub save_path: Option<String>,
}

/// The status line while frames come in.
pub open spec fn frames_text(frames: int, height: int) -> Seq<char> {
    "Frames: "@ + decimal(frames as nat) + " | Height: "@ + signed_decimal(height) + "px"@
}

/// The status line when no more frames come.
pub open spec fn done_text(frames: int, height: int) -> Seq<char> {
    "Capture complete - "@ + decimal(frames as nat) + " frames, "@ + signed_decimal(height)
        + "px height"@
}

/// The error message is the given text.
pub open spec fn says(message: Option<String>, text: Seq<char>) -> bool {
    message matches Some(m) && m@ == text
}

impl LongShotApp {
    /// The image is the same, and so are the counts that belong to it.
    pub open spec fn same_image(self, other: LongShotApp) -> bool {
        &&& self.raw_image == other.raw_image
        &&& self.frame_count == other.frame_count
        &&& self.total_height == other.total_height
    }

    /// The application before anything happened.
    pub fn new() -> (r: LongShotApp)
        ensures
            r.raw_image is None,
            r.status@ == "Ready - Scroll to capture"@,
            r.frame_count == 0,
            r.total_height == 0,
            r.is_capturing,
            r.error_msg is None,
            r.save_path is None,
    {
        LongShotApp {
            raw_image: None,
            status: "Ready - Scroll to capture".to_string(),
            frame_count: 0,
            total_height: 0,
            is_capturing: true,
            error_msg: None,
            save_path: None,
        }
    }

    /// Takes in a message of the worker; returns whether there is a new image
    /// to show.
    pub fn process_event(&mut self, event: WorkerEvent) -> (r: bool)
        ensures
            final(self).save_path == old(self).save_path,
            r == (event is ImageUpdated),
            match event {
                WorkerEvent::ImageUpdated { data, width, height } => {
                    &&& final(self).raw_image == Some((data, width, height))
                    &&& final(self).frame_count == (old(self).frame_count + 1) % 0x1_0000_0000
                    &&& final(self).total_height == height as i32
                    &&& final(self).status@ == frames_text(
                        final(self).frame_count as int,
                        final(self).total_height as int,
                    )
                    &&& final(self).status@ == "Frames: "@ + decimal(
                        final(self).frame_count as nat,
                    ) + " | Height: "@ + signed_decimal(height as i32 as int) + "px"@
                    &&& final(self).is_capturing == old(self).is_capturing
                    &&& final(self).error_msg == old(self).error_msg
                },
                WorkerEvent::Status(message) => {
                    &&& final(self).same_image(*old(self))
                    &&& final(self).status@ == message@
                    &&& final(self).is_capturing == old(self).is_capturing
                    &&& final(self).error_msg == old(self).error_msg
                },
                WorkerEvent::Error(message) => {
                    &&& final(self).same_image(*old(self))
                    &&& final(self).status == old(self).status
                    &&& final(self).is_capturing == old(self).is_capturing
                    &&& says(final(self).error_msg, message@)
                },
                WorkerEvent::CaptureComplete => {
                    &&& final(self).same_image(*old(self))
                    &&& final(self).status@ == done_text(
                        old(self).frame_count as int,
                        old(self).total_height as int,
                    )
                    &&& final(self).status@ == "Capture complete - "@ + decimal(
                        old(self).frame_count as nat,
                    ) + " frames, "@ + signed_decimal(old(self).total_height as int)
                        + "px height"@
                    &&& !final(self).is_capturing
                    &&& final(self).error_msg == old(self).error_msg
                },
            },
    {
        match event {
            WorkerEvent::ImageUpdated { data, width, height } => {
                self.raw_image = Some((data, width, height));
                self.frame_count = self.frame_count.wrapping_add(1);
                self.total_height = #[verifier::truncate]
                (height as i32);
                let mut status: String = "Frames: ".to_string();
                push_decimal(&mut status, self.frame_count as u64);
                status.append(" | Height: ");
                push_signed(&mut status, self.total_height as i64);
                status.append("px");
                self.status = status;
                true
            },
            WorkerEvent::Status(message) => {
                self.status = message;
                false
            },
            WorkerEvent::Error(message) => {
                self.error_msg = Some(message);
                false
            },
            WorkerEvent::CaptureComplete => {
                self.is_capturing = false;
                let mut status: String = "Capture complete - ".to_string();
                push_decimal(&mut status, self.frame_count as u64);
                status.append(" frames, ");
                push_signed(&mut status, self.total_height as i64);
                status.append("px height");
                self.status = status;
                false
            },
        }
    }

    /// The bytes to save, with their width and height; where there are none,
    /// the error message says why.
    pub fn image_to_save(&mut self) -> (r: Option<(Vec<u8>, u32, u32)>)
        ensures
            final(self).same_image(*old(self)),
            final(self).status == old(self).status,
            final(self).is_capturing == old(self).is_capturing,
            final(self).save_path == old(self).save_path,
            match old(self).raw_image {
                None => r is None && says(final(self).error_msg, ExportError::NoImage.words()),
                Some((bytes, width, height)) => if image_fits(
                    bytes@,
                    width as int,
                    height as int,
                ) {
                    &&& r matches Some((data, w, h))
                    &&& data@ == bytes@ && w == width && h == height
                    &&& final(self).error_msg == old(self).error_msg
                } else {
                    r is None && says(final(self).error_msg, ExportError::Buffer.words())
                },
            },
    {
        let outcome: Result<(Vec<u8>, u32, u32), ExportError> = match &self.raw_image {
            None => Err(ExportError::NoImage),
            Some((bytes, width, height)) => match bytes_for_export(bytes, *width, *height) {
                Ok(data) => Ok((data, *width, *height)),
                Err(e) => Err(e),
            },
        };
        match outcome {
            Ok(image) => Some(image),
            Err(e) => {
                self.error_msg = Some(e.message());
                None
            },
        }
    }

    /// Records that the image was saved.
    pub fn saved(&mut self, path: &str)
        ensures
            final(self).same_image(*old(self)),
            final(self).is_capturing == old(self).is_capturing,
            final(self).error_msg == old(self).error_msg,
            says(final(self).save_path, path@),
            final(self).status@ == "Saved to: "@ + path@,
    {
        self.save_path = Some(path.to_string());
        self.status = "Saved to: ".to_string().concat(path);
    }

    /// Whether there is an image to copy; where there is none, the error
    /// message says so.
    pub fn may_copy(&mut self) -> (r: bool)
        ensures
            final(self).same_image(*old(self)),
            final(self).status == old(self).status,
            final(self).is_capturing == old(self).is_capturing,
            final(self).save_path == old(self).save_path,
            r == (old(self).raw_image is Some),
            if r {
                final(self).error_msg == old(self).error_msg
            } else {
                says(final(self).error_msg, "No image to copy"@)
            },
    {
        if self.raw_image.is_some() {
            return true;
        }
        self.error_msg = Some("No image to copy".to_string());
        false
    }

    /// Records that the image was copied.
    pub fn copied(&mut self)
        ensures
            final(self).same_image(*old(self)),
            final(self).is_capturing == old(self).is_capturing,
            final(self).error_msg == old(self).error_msg,
            final(self).save_path == old(self).save_path,
            final(self).status@ == "Image copied to clipboard!"@,
    {
        self.status = "Image copied to clipboard!".to_string();
    }

    /// Records that something failed.
    pub fn failed(&mut self, failure: Failure, error: &str)
        ensures
            final(self).same_image(*old(self)),
            final(self).status == old(self).status,
            final(self).is_capturing == old(self).is_capturing,
            final(self).save_path == old(self).save_path,
            says(final(self).error_msg, failure.words(error@)),
    {
        self.error_msg = Some(
            match failure {
                Failure::Save => "Save failed: ".to_string().concat(error),
                Failure::Copy => "Clipboard error: ".to_string().concat(error),
                Failure::Clipboard => "Cannot access clipboard: ".to_string().concat(error),
            },
        );
    }

    /// Removes the error message.
    pub fn dismiss_error(&mut self)
        ensures
            final(self).same_image(*old(self)),
            final(self).status == old(self).status,
            final(self).is_capturing == old(self).is_capturing,
            final(self).save_path == old(self).save_path,
            final(self).error_msg is None,
    {
        self.error_msg = None;
    }

    /// Whether the image can be saved and copied.
    pub fn can_export(&self) -> (r: bool)
        ensures
            r == (self.raw_image is Some),
    {
        self.raw_image.is_some()
    }

    /// The size of the image in words.
    pub fn size_label(&self) -> (r: Option<String>)
        ensures
            match self.raw_image {
                Some((_, width, height)) => says(
                    r,
                    "Size: "@ + decimal(width as nat) + "×"@ + decimal(height as nat),
                ),
                None => r is None,
            },
    {
        match &self.raw_image {
            Some((_, width, height)) => {
                let mut text: String = "Size: ".to_string();
                push_decimal(&mut text, *width as u64);
                text.append("×");
                push_decimal(&mut text, *height as u64);
                Some(text)
            },
            None => None,
        }
    }

    /// Where the image was saved, in words.
    pub fn saved_label(&self) -> (r: Option<String>)
        ensures
            match self.save_path {
                Some(path) => says(r, "Last saved: "@ + path@),
                None => r is None,
            },
    {
        match &self.save_path {
            Some(path) => Some("Last saved: ".to_string().concat(path.as_str())),
            None => None,
        }
    }

    /// Whether frames still come, in words.
    pub fn activity_label(&self) -> (r: String)
        ensures
            r@ == (if self.is_capturing {
                "● Capturing"@
            } else {
                "○ Idle"@
            }),
    {
        if self.is_capturing {
            "● Capturing".to_string()
        } else {
            "○ Idle".to_string()
        }
    }
}

/// What may fail when the image is exported.
#[derive(Debug, Clone, Copy, PartialEq, Eq, Structural)]
pub enum Failure {
    /// The file could not be written.
    Save,
    /// The clipboard did not take the image.
    Copy,
    /// There is no clipboard.
    Clipboard,
}

impl Failure {
    /// The failure in words, with those of its cause.
    pub open spec fn words(self, error: Seq<char>) -> Seq<char> {
        match self {
            Failure::Save => "Save failed: "@ + error,
            Failure::Copy => "Clipboard error: "@ + error,
            Failure::Clipboard => "Cannot access clipboard: "@ + error,
        }
    }
}

/// What stays the same, and what a message says.
pub proof fn image_and_messages_compare(
    a: LongShotApp,
    b: LongShotApp,
    message: String,
    text: Seq<char>,
)
    ensures
        a.same_image(b) <==> a.raw_image == b.raw_image && a.frame_count == b.frame_count
            && a.total_height == b.total_height,
        says(Some(message), text) <==> message@ == text,
        !says(None, text),
{
}

} // verus!
