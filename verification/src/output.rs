//! Output capture: while a capture is open, printed text is collected instead of being
//! written out, so that a command's report can be sent elsewhere.
use vstd::prelude::*;
use crate::db::append_text;
use crate::text::push_char;

verus! {

/// The capture state: `Some(text)` while a capture is open, holding what was printed
/// since it opened; `None` when printing goes to standard output.
#[derive(Debug, Clone)]
pub struct OutputBuffer {
    pub captured: Option<String>,
}

/// The view of the capture state.
pub open spec fn captured_view(b: OutputBuffer) -> Option<Seq<char>> {
    match b.captured {
        Some(s) => Some(s@),
        None => None,
    }
}

impl OutputBuffer {
    /// No capture open.
    pub fn new() -> (r: OutputBuffer)
        ensures
            captured_view(r) is None,
    {
        OutputBuffer { captured: None }
    }

    /// Opens a capture, discarding anything collected before.
    pub fn start_capture(&mut self)
        ensures
            captured_view(*final(self)) == Some(Seq::<char>::empty()),
    {
        self.captured = Some(String::new());
    }

    /// `print!`: collects the text when a capture is open (answering `true`); otherwise
    /// leaves the state alone and answers `false`, the text going to standard output.
    pub fn print(&mut self, msg: &str) -> (r: bool)
        ensures
            r == (captured_view(*old(self)) is Some),
            captured_view(*final(self)) == (match captured_view(*old(self)) {
                Some(s) => Some(s + msg@),
                None => None,
            }),
    {
        match &mut self.captured {
            Some(s) => {
                append_text(s, msg);
                true
            },
            None => false,
        }
    }

    /// `println!`: as `print`, with a line feed after the text.
    pub fn println(&mut self, msg: &str) -> (r: bool)
        ensures
            r == (captured_view(*old(self)) is Some),
            captured_view(*final(self)) == (match captured_view(*old(self)) {
                Some(s) => Some(s + msg@ + seq!['\n']),
                None => None,
            }),
    {
        match &mut self.captured {
            Some(s) => {
                append_text(s, msg);
                push_char(s, '\n');
                true
            },
            None => false,
        }
    }

    /// Closes the capture and gives what it collected (empty when none was open).
    pub fn take(&mut self) -> (r: String)
        ensures
            captured_view(*final(self)) is None,
            r@ == (match captured_view(*old(self)) {
                Some(s) => s,
                None => Seq::empty(),
            }),
    {
        match self.captured.take() {
            Some(s) => s,
            None => String::new(),
        }
    }
}

/// What a capture state holds as text (empty when no capture is open).
pub open spec fn collected(b: OutputBuffer) -> Seq<char> {
    match captured_view(b) {
        Some(s) => s,
        None => Seq::empty(),
    }
}

/// Runs `f` on a freshly opened capture and gives everything collected by the state it
/// hands back.
pub fn capture_output<F: FnOnce(OutputBuffer) -> OutputBuffer>(f: F) -> (r: String)
    requires
        forall|b: OutputBuffer| captured_view(b) == Some(Seq::<char>::empty()) ==> f.requires((b,)),
    ensures
        exists|b: OutputBuffer, out: OutputBuffer|
            captured_view(b) == Some(Seq::<char>::empty()) && f.ensures((b,), out) && r@
                == collected(out),
{
    let mut buf = OutputBuffer::new();
    buf.start_capture();
    let ghost b0 = buf;
    let mut out = f(buf);
    let ghost out0 = out;
    let r = out.take();
    assert(captured_view(b0) == Some(Seq::<char>::empty()) && f.ensures((b0,), out0) && r@
        == collected(out0));
    r
}

} // verus!
