//! The editing prompt: what it holds and how it answers to key presses.
//!
//! The terminal is the caller's. The caller reads an event, hands it to
//! [`Editor::on_event`], and does what the answer says.

use vstd::prelude::*;
use vstd::string::{StrSliceExecFns, StringExecFns};

use crate::text::chars_of;

verus! {

/// What happened at the terminal.
#[derive(Clone, Copy, Debug, PartialEq, Eq, Structural)]
pub enum EditorEvent {
    /// The key that opens the text in an editor.
    Edit,
    /// The key that switches the preview on or off.
    TogglePreview,
    /// The key that submits the text.
    Submit,
    /// The key that gives the run up.
    Cancel,
    /// The terminal now has this many columns and rows.
    Resize(u16, u16),
    /// Anything else.
    Other,
}

/// What the caller is to do next.
#[derive(Clone, Copy, Debug, PartialEq, Eq, Structural)]
pub enum EditorAction {
    /// Let the user edit the text, hand the result to [`Editor::edited`],
    /// and draw the prompt again.
    OpenEditor,
    /// Clear the screen and draw the prompt again.
    Redraw,
    /// Take the text: the user is done.
    Finish,
    /// Give the run up.
    Abort,
    /// Wait for the next event.
    Wait,
}

/// What the prompt holds, as plain values.
pub struct EditorView {
    pub text: Seq<char>,
    pub preview: bool,
    pub size: Option<(u16, u16)>,
}

/// The state of the editing prompt.
#[derive(Debug)]
pub struct Editor {
    current_text: String,
    preview_display: bool,
    size: Option<(u16, u16)>,
}

impl View for Editor {
    type V = EditorView;

    closed spec fn view(&self) -> EditorView {
        EditorView { text: self.current_text@, preview: self.preview_display, size: self.size }
    }
}

/// The state after `event`, and what the caller is to do.
///
/// The preview key flips the preview. A resize to another size than the one
/// last seen is noted and the prompt drawn again; one to the same size, and
/// any other event, changes nothing.
pub open spec fn step(state: EditorView, event: EditorEvent) -> (EditorView, EditorAction) {
    match event {
        EditorEvent::Edit => (state, EditorAction::OpenEditor),
        EditorEvent::TogglePreview => (
            EditorView { preview: !state.preview, ..state },
            EditorAction::Redraw,
        ),
        EditorEvent::Submit => (state, EditorAction::Finish),
        EditorEvent::Cancel => (state, EditorAction::Abort),
        EditorEvent::Resize(columns, rows) => if state.size == Some((columns, rows)) {
            (state, EditorAction::Wait)
        } else {
            (EditorView { size: Some((columns, rows)), ..state }, EditorAction::Redraw)
        },
        EditorEvent::Other => (state, EditorAction::Wait),
    }
}

impl Editor {
    /// A prompt on `starting_text`, with the preview on and no size seen.
    pub fn new(starting_text: String) -> (r: Editor)
        ensures
            r@ == (EditorView { text: starting_text@, preview: true, size: None }),
    {
        Editor { current_text: starting_text, preview_display: true, size: None }
    }

    /// Takes note of `event` and says what to do next.
    pub fn on_event(&mut self, event: EditorEvent) -> (r: EditorAction)
        ensures
            (final(self)@, r) == step(old(self)@, event),
    {
        match event {
            EditorEvent::Edit => EditorAction::OpenEditor,
            EditorEvent::TogglePreview => {
                self.preview_display = !self.preview_display;
                EditorAction::Redraw
            },
            EditorEvent::Submit => EditorAction::Finish,
            EditorEvent::Cancel => EditorAction::Abort,
            EditorEvent::Resize(columns, rows) => {
                let same = match self.size {
                    Some((c, r)) => c == columns && r == rows,
                    None => false,
                };
                if same {
                    EditorAction::Wait
                } else {
                    self.size = Some((columns, rows));
                    EditorAction::Redraw
                }
            },
            EditorEvent::Other => EditorAction::Wait,
        }
    }

    /// Takes the text as the user left it in the editor.
    pub fn edited(&mut self, text: String)
        ensures
            final(self)@ == (EditorView { text: text@, ..old(self)@ }),
    {
        self.current_text = text;
    }

    /// The text as it stands.
    pub fn text(&self) -> (r: &String)
        ensures
            r@ == self@.text,
    {
        &self.current_text
    }

    /// Whether the text is shown as a preview.
    pub fn preview(&self) -> (r: bool)
        ensures
            r == self@.preview,
    {
        self.preview_display
    }

    /// The text, when the user is done.
    pub fn into_text(self) -> (r: String)
        ensures
            r@ == self@.text,
    {
        self.current_text
    }
}

/// The position behind the last `c` in `s`, or zero when `s` holds no `c`.
pub open spec fn after_last(s: Seq<char>, c: char) -> int
    decreases s.len(),
{
    if s.len() == 0 {
        0
    } else if s.last() == c {
        s.len() as int
    } else {
        after_last(s.drop_last(), c)
    }
}

/// The last part of `path`: what follows its last `separator`, or all of it
/// when it holds none.
pub open spec fn last_part(path: Seq<char>, separator: char) -> Seq<char> {
    path.subrange(after_last(path, separator), path.len() as int)
}

/// The name of a program from the path to it.
pub fn program_name(path: &str, separator: char) -> (r: String)
    ensures
        r@ == last_part(path@, separator),
{
    let v = chars_of(path);
    let mut at: usize = v.len();
    proof {
        assert(v@.take(v.len() as int) =~= v@);
    }
    while at > 0 && v[at - 1] != separator
        invariant
            at <= v.len(),
            after_last(v@, separator) == after_last(v@.take(at as int), separator),
        decreases at,
    {
        proof {
            assert(v@.take(at as int).drop_last() =~= v@.take(at - 1));
        }
        at -= 1;
    }
    path.substring_char(at, v.len()).to_owned()
}

/// The text of the prompt: the document, and a line that names the keys.
pub open spec fn prompt_of(
    body: Seq<char>,
    edit_key: Seq<char>,
    editor: Seq<char>,
    preview_key: Seq<char>,
    submit_key: Seq<char>,
) -> Seq<char> {
    "Processed text:\n"@ + body + "\n("@ + edit_key + ") to open in "@ + editor + ", ("@
        + preview_key + ") to toggle Markdown preview, ("@ + submit_key + ") to submit\n"@
}

/// Writes the prompt.
pub fn prompt_text(body: &str, edit_key: &str, editor: &str, preview_key: &str, submit_key: &str) -> (r:
    String)
    ensures
        r@ == prompt_of(body@, edit_key@, editor@, preview_key@, submit_key@),
{
    let mut out = String::new();
    out.append("Processed text:\n");
    out.append(body);
    out.append("\n(");
    out.append(edit_key);
    out.append(") to open in ");
    out.append(editor);
    out.append(", (");
    out.append(preview_key);
    out.append(") to toggle Markdown preview, (");
    out.append(submit_key);
    out.append(") to submit\n");
    assert(out@ =~= prompt_of(body@, edit_key@, editor@, preview_key@, submit_key@));
    out
}

} // verus!
