//! Bookkeeping for the file dialogs that run beside the machine: which one
//! is open, and the result it hands back over a one-shot channel.
use vstd::prelude::*;
use std::sync::mpsc::Receiver;

verus! {

/// std's `mpsc::Receiver`, carried opaque: the channel a dialog's result arrives on.
#[verifier::external_type_specification]
#[verifier::external_body]
#[verifier::reject_recursive_types(T)]
pub struct ExReceiver<T>(Receiver<T>);

/// The dialogs the host can open.
#[derive(Clone, Copy, PartialEq, Eq, Structural, Debug)]
pub enum FileDialogType {
    OpenRom,
    SaveState,
}

/// What a dialog handed back: nothing (cancelled, or not finished), or a path.
#[derive(Debug)]
pub enum FileDialogResult {
    Empty,
    OpenRom(String),
    SaveState(String),
}

/// Tracks the one dialog that may be open and the channel its result arrives on.
pub struct DialogHandler {
    is_open: bool,
    chan_rx: Option<Receiver<FileDialogResult>>,
}

/// Relies on std's `Receiver::try_recv`: the result, if the dialog's
/// thread has sent it. Whether it has depends on timing, so nothing is promised.
#[verifier::external_body]
fn poll_result(rx: &Receiver<FileDialogResult>) -> (r: Option<FileDialogResult>) {
    rx.try_recv().ok()
}

/// Relies on std's `str::contains` with a `char` pattern: whether `c` occurs in `s`.
#[verifier::external_body]
fn contains_char(s: &str, c: char) -> (r: bool)
    ensures
        r == s@.contains(c),
{
    s.contains(c)
}

/// The file name for a save state chosen as `path`: kept when it has an
/// extension (holds a dot), else given the save-state extension.
pub fn state_file_path(path: String) -> (r: String)
    ensures
        path@.contains('.') ==> r@ == path@,
        !path@.contains('.') ==> r@ == path@ + ".p8s"@,
{
    if contains_char(path.as_str(), '.') {
        path
    } else {
        path.concat(".p8s")
    }
}

impl DialogHandler {
    /// Whether a dialog is open.
    pub closed spec fn dialog_open(&self) -> bool {
        self.is_open
    }

    /// The channel a result is awaited on, if any.
    pub closed spec fn channel(&self) -> Option<Receiver<FileDialogResult>> {
        self.chan_rx
    }

    /// Whether a channel for a result is attached.
    pub open spec fn has_channel(&self) -> bool {
        self.channel() is Some
    }

    /// No dialog open and no channel.
    pub fn new() -> (r: DialogHandler)
        ensures
            !r.dialog_open(),
            !r.has_channel(),
    {
        DialogHandler { is_open: false, chan_rx: None }
    }

    /// Whether a dialog is open.
    pub fn is_open(&self) -> (r: bool)
        ensures
            r == self.dialog_open(),
    {
        self.is_open
    }

    /// Marks a dialog as open, its result to arrive on `rx`. A channel held
    /// before is dropped, and with it any result of an earlier dialog.
    pub fn attach(&mut self, rx: Receiver<FileDialogResult>)
        ensures
            final(self).dialog_open(),
            final(self).channel() == Some(rx),
    {
        self.is_open = true;
        self.chan_rx = Some(rx);
    }

    /// Takes a polled result: a result that arrived closes the dialog and
    /// is returned; none leaves everything as it was.
    pub fn accept_result(&mut self, polled: Option<FileDialogResult>) -> (r: FileDialogResult)
        ensures
            match polled {
                Some(res) => r == res && !final(self).dialog_open(),
                None => r is Empty && final(self).dialog_open() == old(self).dialog_open(),
            },
            final(self).channel() == old(self).channel(),
    {
        match polled {
            Some(res) => {
                self.is_open = false;
                res
            },
            None => FileDialogResult::Empty,
        }
    }

    /// Polls the channel without blocking. With no channel attached, or
    /// nothing sent yet, nothing changes and the result is `None`; a result
    /// that arrived closes the dialog.
    pub fn check_result(&mut self) -> (r: FileDialogResult)
        ensures
            !old(self).has_channel() ==> r is Empty && final(self).dialog_open() == old(self).dialog_open(),
            final(self).dialog_open() ==> old(self).dialog_open(),
            !(r is Empty) ==> !final(self).dialog_open(),
            final(self).channel() == old(self).channel(),
    {
        let polled = match &self.chan_rx {
            Some(rx) => poll_result(rx),
            None => None,
        };
        self.accept_result(polled)
    }
}

} // verus!
