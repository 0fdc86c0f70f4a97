//! Copy, paste and cut through the system clipboard.
//!
//! The clipboard belongs to the operating system, so what it holds and
//! whether it can be opened at all are outside this library's control:
//! only copying nothing is promised to succeed, because it never touches
//! the clipboard.

use vstd::prelude::*;

verus! {

#[verifier::external_type_specification]
#[verifier::external_body]
pub struct ExClipboard(arboard::Clipboard);

/// Why a clipboard operation failed.
#[derive(Debug, Clone, PartialEq)]
pub enum ClipboardError {
    /// The clipboard is empty or holds no text.
    ContentNotAvailable,
    /// The clipboard is not supported on this system.
    ClipboardNotSupported,
    /// Another party holds the clipboard.
    ClipboardOccupied,
    /// The text could not be converted for the clipboard.
    ConversionFailure,
    /// Any other failure, with the platform's description.
    Unknown(String),
}

/// Opens the system clipboard (`arboard::Clipboard::new`). Whether this
/// succeeds depends on the machine, so nothing is stated of the outcome.
#[verifier::external_body]
fn open_clipboard() -> (r: Result<arboard::Clipboard, ClipboardError>) {
    match arboard::Clipboard::new() {
        Ok(c) => Ok(c),
        Err(arboard::Error::ContentNotAvailable) => Err(ClipboardError::ContentNotAvailable),
        Err(arboard::Error::ClipboardNotSupported) => Err(ClipboardError::ClipboardNotSupported),
        Err(arboard::Error::ClipboardOccupied) => Err(ClipboardError::ClipboardOccupied),
        Err(arboard::Error::ConversionFailure) => Err(ClipboardError::ConversionFailure),
        Err(arboard::Error::Unknown { description }) => Err(ClipboardError::Unknown(description)),
        Err(e) => Err(ClipboardError::Unknown(e.to_string())),
    }
}

/// Places `text` on the clipboard (`arboard::Clipboard::set_text`). The
/// outcome depends on the system clipboard, so nothing is stated of it.
#[verifier::external_body]
fn set_clipboard_text(clipboard: &mut arboard::Clipboard, text: &str) -> (r: Result<(), ClipboardError>) {
    match clipboard.set_text(text.to_string()) {
        Ok(()) => Ok(()),
        Err(arboard::Error::ContentNotAvailable) => Err(ClipboardError::ContentNotAvailable),
        Err(arboard::Error::ClipboardNotSupported) => Err(ClipboardError::ClipboardNotSupported),
        Err(arboard::Error::ClipboardOccupied) => Err(ClipboardError::ClipboardOccupied),
        Err(arboard::Error::ConversionFailure) => Err(ClipboardError::ConversionFailure),
        Err(arboard::Error::Unknown { description }) => Err(ClipboardError::Unknown(description)),
        Err(e) => Err(ClipboardError::Unknown(e.to_string())),
    }
}

/// Reads the clipboard's text (`arboard::Clipboard::get_text`). What it
/// holds is up to the system and other programs, so nothing is stated of
/// the outcome.
#[verifier::external_body]
fn get_clipboard_text(clipboard: &mut arboard::Clipboard) -> (r: Result<String, ClipboardError>) {
    match clipboard.get_text() {
        Ok(t) => Ok(t),
        Err(arboard::Error::ContentNotAvailable) => Err(ClipboardError::ContentNotAvailable),
        Err(arboard::Error::ClipboardNotSupported) => Err(ClipboardError::ClipboardNotSupported),
        Err(arboard::Error::ClipboardOccupied) => Err(ClipboardError::ClipboardOccupied),
        Err(arboard::Error::ConversionFailure) => Err(ClipboardError::ConversionFailure),
        Err(arboard::Error::Unknown { description }) => Err(ClipboardError::Unknown(description)),
        Err(e) => Err(ClipboardError::Unknown(e.to_string())),
    }
}

/// What copying `text` asks of the clipboard: nothing for empty text,
/// else to hold exactly `text`.
pub fn clipboard_request(text: &str) -> (r: Option<String>)
    ensures
        match r {
            Some(t) => text@.len() > 0 && t@ == text@,
            None => text@.len() == 0,
        },
{
    if text.is_empty() {
        None
    } else {
        Some(text.to_string())
    }
}

/// Copy text to the system clipboard: the clipboard is asked to hold
/// exactly what `clipboard_request(text)` gives. Copying nothing succeeds
/// without opening the clipboard, and a failure can only come from the
/// clipboard.
pub fn copy(text: &str) -> (r: Result<(), ClipboardError>)
    ensures
        text@.len() == 0 ==> r is Ok,
        r is Err ==> text@.len() > 0,
{
    match clipboard_request(text) {
        None => Ok(()),
        Some(request) => {
            let mut clipboard = match open_clipboard() {
                Ok(c) => c,
                Err(e) => return Err(e),
            };
            set_clipboard_text(&mut clipboard, request.as_str())
        },
    }
}

/// Paste text from the system clipboard.
pub fn paste() -> (r: Result<String, ClipboardError>) {
    let mut clipboard = match open_clipboard() {
        Ok(c) => c,
        Err(e) => return Err(e),
    };
    get_clipboard_text(&mut clipboard)
}

/// Cut text to the clipboard: a copy; the caller removes the text from
/// its source.
pub fn cut(text: &str) -> (r: Result<(), ClipboardError>)
    ensures
        text@.len() == 0 ==> r is Ok,
        r is Err ==> text@.len() > 0,
{
    copy(text)
}

} // verus!
