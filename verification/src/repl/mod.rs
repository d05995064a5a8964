//! The interactive shell.
//!
//! The main shell runs commands. A kernel shell sends what is typed to a
//! language's kernel, line by line or in blocks.
use vstd::prelude::*;

use crate::text::{same, texts, trim, trimmed};

pub mod analyses;
pub mod commands;
pub mod completer;
pub mod display;
pub mod flags;
pub mod observation;
pub mod vars;

verus! {

/// Which shell the user is in.
#[derive(Clone, Debug, PartialEq, Eq, Structural)]
pub enum ReplMode {
    /// The main shell.
    Opsense,
    /// A kernel's shell.
    Kernel(KernelLang),
}

/// The language of a kernel.
#[derive(Clone, Copy, Debug, PartialEq, Eq, Structural)]
pub enum KernelLang {
    Python,
    Julia,
}

impl KernelLang {
    /// What the language's prompt is.
    pub open spec fn prompt_text(self) -> Seq<char> {
        match self {
            KernelLang::Python => "python> "@,
            KernelLang::Julia => "julia> "@,
        }
    }

    /// What the language is called.
    pub open spec fn name_text(self) -> Seq<char> {
        match self {
            KernelLang::Python => "Python"@,
            KernelLang::Julia => "Julia"@,
        }
    }

    /// The prompt of the language's shell.
    pub fn prompt(self) -> (r: &'static str)
        ensures
            r@ == self.prompt_text(),
    {
        match self {
            KernelLang::Python => "python> ",
            KernelLang::Julia => "julia> ",
        }
    }

    /// The name of the language.
    pub fn name(self) -> (r: &'static str)
        ensures
            r@ == self.name_text(),
    {
        match self {
            KernelLang::Python => "Python",
            KernelLang::Julia => "Julia",
        }
    }
}

/// What the end of a line does in a kernel's shell.
#[derive(Clone, Copy, Debug, PartialEq, Eq, Structural)]
pub enum InputMode {
    /// It runs the line.
    Line,
    /// It adds the line to a block; an empty line runs the block.
    Block,
}

/// Whether a line leaves a shell.
pub open spec fn leaves(line: Seq<char>) -> bool {
    let t = trimmed(line);
    t == ":quit"@ || t == ":q"@ || t == ":exit"@ || t == "exit()"@ || t == "exit"@
}

/// Whether a line leaves a shell.
pub fn is_exit(line: &str) -> (r: bool)
    ensures
        r == leaves(line@),
{
    let t = trim(line);
    same(t, ":quit") || same(t, ":q") || same(t, ":exit") || same(t, "exit()") || same(t, "exit")
}

/// The input mode that a line asks for.
pub open spec fn toggle_of(line: Seq<char>) -> Option<InputMode> {
    let t = trimmed(line);
    if t == ":block"@ {
        Some(InputMode::Block)
    } else if t == ":line"@ {
        Some(InputMode::Line)
    } else {
        None
    }
}

/// The input mode that a line asks for.
pub fn is_block_toggle(line: &str) -> (r: Option<InputMode>)
    ensures
        r == toggle_of(line@),
{
    let t = trim(line);
    if same(t, ":block") {
        Some(InputMode::Block)
    } else if same(t, ":line") {
        Some(InputMode::Line)
    } else {
        None
    }
}

/// The lines joined by line ends.
pub open spec fn joined(lines: Seq<Seq<char>>) -> Seq<char>
    decreases lines.len(),
{
    if lines.len() == 0 {
        Seq::empty()
    } else if lines.len() == 1 {
        lines[0]
    } else {
        joined(lines.drop_last()) + seq!['\n'] + lines.last()
    }
}

fn join_lines(lines: &Vec<String>) -> (r: String)
    ensures
        r@ == joined(texts(lines@)),
{
    let mut out = String::new();
    let mut i: usize = 0;
    let ghost all = texts(lines@);
    assert(all.take(0) =~= Seq::<Seq<char>>::empty());
    assert(out@ =~= joined(all.take(0)));
    while i < lines.len()
        invariant
            i <= lines@.len(),
            all == texts(lines@),
            out@ == joined(all.take(i as int)),
        decreases lines@.len() - i,
    {
        let ghost before = out@;
        if i > 0 {
            out.push('\n');
        }
        out.append(&lines[i]);
        proof {
            let next = all.take(i + 1);
            assert(next.drop_last() =~= all.take(i as int));
            assert(next.last() == lines@[i as int]@);
            if i == 0 {
                assert(out@ =~= next[0]);
            } else {
                assert(out@ =~= before + seq!['\n'] + next.last());
            }
        }
        i += 1;
    }
    assert(all.take(i as int) =~= all);
    out
}

/// What a line asks of the program around the shell.
#[derive(Debug)]
pub enum Action {
    /// Nothing.
    Nothing,
    /// To end.
    Quit,
    /// To run a command of the main shell.
    Command(String),
    /// To run code in the kernel.
    Run(String),
    /// To say that the main shell is back.
    BackToMain,
    /// To say which input mode is on.
    ModeSet(InputMode),
}

/// What an action holds.
pub enum ActionView {
    Nothing,
    Quit,
    Command(Seq<char>),
    Run(Seq<char>),
    BackToMain,
    ModeSet(InputMode),
}

impl View for Action {
    type V = ActionView;

    open spec fn view(&self) -> ActionView {
        match self {
            Action::Nothing => ActionView::Nothing,
            Action::Quit => ActionView::Quit,
            Action::Command(s) => ActionView::Command(s@),
            Action::Run(s) => ActionView::Run(s@),
            Action::BackToMain => ActionView::BackToMain,
            Action::ModeSet(m) => ActionView::ModeSet(*m),
        }
    }
}

/// Where the shell stands.
#[derive(Debug)]
pub struct Shell {
    pub mode: ReplMode,
    pub input_mode: InputMode,
    /// The lines of the block so far.
    pub block_buf: Vec<String>,
}

/// What is known of where the shell stands.
pub struct ShellView {
    pub mode: ReplMode,
    pub input_mode: InputMode,
    pub block: Seq<Seq<char>>,
}

impl View for Shell {
    type V = ShellView;

    open spec fn view(&self) -> ShellView {
        ShellView { mode: self.mode, input_mode: self.input_mode, block: texts(self.block_buf@) }
    }
}

impl ShellView {
    /// The main shell.
    pub open spec fn outer() -> ShellView {
        ShellView { mode: ReplMode::Opsense, input_mode: InputMode::Line, block: Seq::empty() }
    }

    /// A kernel's shell, just entered.
    pub open spec fn kernel(lang: KernelLang) -> ShellView {
        ShellView { mode: ReplMode::Kernel(lang), input_mode: InputMode::Line, block: Seq::empty() }
    }

    /// What a line does.
    pub open spec fn step(self, line: Seq<char>) -> (ShellView, ActionView) {
        let t = trimmed(line);
        match self.mode {
            ReplMode::Opsense => if t.len() == 0 {
                (self, ActionView::Nothing)
            } else if leaves(line) {
                (self, ActionView::Quit)
            } else {
                (self, ActionView::Command(t))
            },
            ReplMode::Kernel(_) => if leaves(line) {
                (ShellView::outer(), ActionView::BackToMain)
            } else if toggle_of(line) is Some {
                (
                    ShellView { input_mode: toggle_of(line)->0, block: Seq::empty(), ..self },
                    ActionView::ModeSet(toggle_of(line)->0),
                )
            } else if self.input_mode == InputMode::Block {
                if t.len() == 0 {
                    let code = joined(self.block);
                    (
                        ShellView { block: Seq::empty(), ..self },
                        if code.len() == 0 {
                            ActionView::Nothing
                        } else {
                            ActionView::Run(code)
                        },
                    )
                } else {
                    (ShellView { block: self.block.push(line), ..self }, ActionView::Nothing)
                }
            } else if t.len() == 0 {
                (self, ActionView::Nothing)
            } else {
                (self, ActionView::Run(line))
            },
        }
    }
}

/// Whether a text is empty.
pub fn is_blank(t: &str) -> (r: bool)
    ensures
        r == (t@.len() == 0),
{
    proof {
        reveal_strlit("");
        if t@.len() == 0 {
            assert(t@ =~= ""@);
        }
    }
    same(t, "")
}

impl Shell {
    /// The main shell.
    pub fn new() -> (r: Shell)
        ensures
            r@ == ShellView::outer(),
    {
        let r = Shell { mode: ReplMode::Opsense, input_mode: InputMode::Line, block_buf: Vec::new() };
        assert(r@.block =~= Seq::<Seq<char>>::empty());
        r
    }

    /// Enters a kernel's shell.
    pub fn enter(&mut self, lang: KernelLang)
        ensures
            final(self)@ == ShellView::kernel(lang),
    {
        self.mode = ReplMode::Kernel(lang);
        self.input_mode = InputMode::Line;
        self.block_buf = Vec::new();
        assert(self@.block =~= Seq::<Seq<char>>::empty());
    }

    /// Takes a line.
    pub fn step(&mut self, line: &str) -> (r: Action)
        ensures
            (final(self)@, r@) == old(self)@.step(line@),
    {
        let ghost before = self@;
        let t = trim(line);
        match self.mode {
            ReplMode::Opsense => {
                if is_blank(t) {
                    Action::Nothing
                } else if is_exit(line) {
                    Action::Quit
                } else {
                    Action::Command(t.to_owned())
                }
            },
            ReplMode::Kernel(_) => {
                if is_exit(line) {
                    self.mode = ReplMode::Opsense;
                    self.input_mode = InputMode::Line;
                    self.block_buf = Vec::new();
                    assert(self@.block =~= Seq::<Seq<char>>::empty());
                    return Action::BackToMain;
                }
                if let Some(mode) = is_block_toggle(line) {
                    self.input_mode = mode;
                    self.block_buf = Vec::new();
                    assert(self@.block =~= Seq::<Seq<char>>::empty());
                    return Action::ModeSet(mode);
                }
                if self.input_mode == InputMode::Block {
                    if is_blank(t) {
                        let code = join_lines(&self.block_buf);
                        self.block_buf = Vec::new();
                        assert(self@.block =~= Seq::<Seq<char>>::empty());
                        if is_blank(&code) {
                            Action::Nothing
                        } else {
                            Action::Run(code)
                        }
                    } else {
                        let ghost old_buf = self.block_buf@;
                        self.block_buf.push(line.to_owned());
                        assert(self@.block =~= before.block.push(line@));
                        Action::Nothing
                    }
                } else if is_blank(t) {
                    Action::Nothing
                } else {
                    Action::Run(line.to_owned())
                }
            },
        }
    }

    /// The two parts of the prompt.
    pub fn prompt(&self) -> (r: (&'static str, &'static str))
        ensures
            self.mode is Opsense ==> r.0@ == "opsense"@ && r.1@ == "\u{276f} "@,
            self.mode matches ReplMode::Kernel(lang) ==> r.0@ == lang.name_text() && r.1@ == lang.prompt_text(),
    {
        match self.mode {
            ReplMode::Opsense => ("opsense", "\u{276f} "),
            ReplMode::Kernel(lang) => (lang.name(), lang.prompt()),
        }
    }
}

/// A kernel's shell never ends the program, and only a line that leaves it
/// leads back to the main shell.
pub proof fn kernel_shells_do_not_quit(s: ShellView, line: Seq<char>)
    requires
        s.mode is Kernel,
    ensures
        !(s.step(line).1 is Quit),
        s.step(line).0.mode is Opsense <==> leaves(line),
{
}

/// The state of the shell after lines were taken one by one.
pub open spec fn after_lines(s: ShellView, lines: Seq<Seq<char>>) -> ShellView
    decreases lines.len(),
{
    if lines.len() == 0 {
        s
    } else {
        after_lines(s, lines.drop_last()).step(lines.last()).0
    }
}

/// Whether a line is one of code in a block: neither blank nor a word to the
/// shell.
pub open spec fn is_code(line: Seq<char>) -> bool {
    trimmed(line).len() > 0 && !leaves(line) && toggle_of(line) is None
}

/// A block is run as it was typed: after lines of code in block mode, a blank
/// line runs them, joined by line ends, and the block is empty again.
pub proof fn a_block_runs_as_typed(lang: KernelLang, lines: Seq<Seq<char>>, blank: Seq<char>)
    requires
        lines.len() > 0,
        forall|i: int| 0 <= i < lines.len() ==> is_code(#[trigger] lines[i]),
        trimmed(blank).len() == 0,
        !leaves(blank),
        toggle_of(blank) is None,
    ensures
        ({
            let s = ShellView { input_mode: InputMode::Block, ..ShellView::kernel(lang) };
            let typed = after_lines(s, lines);
            &&& typed.block == lines
            &&& typed.step(blank).0 == s
            &&& joined(lines).len() > 0 ==> typed.step(blank).1 == ActionView::Run(joined(lines))
        }),
{
    let s = ShellView { input_mode: InputMode::Block, ..ShellView::kernel(lang) };
    lemma_typed(s, lines);
}

proof fn lemma_typed(s: ShellView, lines: Seq<Seq<char>>)
    requires
        s.mode is Kernel,
        s.input_mode == InputMode::Block,
        s.block.len() == 0,
        forall|i: int| 0 <= i < lines.len() ==> is_code(#[trigger] lines[i]),
    ensures
        after_lines(s, lines) == (ShellView { block: lines, ..s }),
    decreases lines.len(),
{
    if lines.len() > 0 {
        let d = lines.drop_last();
        assert forall|i: int| 0 <= i < d.len() implies is_code(#[trigger] d[i]) by {
            assert(d[i] == lines[i]);
        }
        lemma_typed(s, d);
        assert(is_code(lines[lines.len() - 1]));
        assert(d.push(lines.last()) =~= lines);
    } else {
        assert(s.block =~= lines);
    }
}

} // verus!
