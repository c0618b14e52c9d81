//! The command line's commands and errors, and how a raise is reported to its user.
use vstd::prelude::*;
use crate::error::{Raised, SimiError, TraceFrame};
use crate::heap::{Heap, HeapV};
use crate::render::render;
use crate::span::{line_column, position_of};
use crate::text::{nat_decimal, push_str, push_u64_decimal};

verus! {

/// The parsed command line.
pub struct Cli {
    pub command: CliCommand,
}

/// What the command line asks for.
pub enum CliCommand {
    /// Evaluate a Simi source file.
    Run {
        /// Print the final value using canonical inspector rendering.
        inspect: bool,
        /// Require a matching lockfile and never fetch or rewrite it.
        locked: bool,
        /// Require a matching lockfile and cached checkouts, without network access.
        offline: bool,
        file: String,
    },
    /// Generate or refresh the lockfile for a Simi source file.
    Lock {
        /// Generate from local paths and cached repositories without network access.
        offline: bool,
        file: String,
    },
    /// Run the language server over standard input and output.
    Lsp,
}

/// Why a command failed: a file could not be read or written, package resolution failed, or
/// the program itself failed.
pub enum CliError {
    Io { path: String, message: String },
    Package { path: String, message: String },
    Simi(SimiError),
}

/// `path:line:column` for byte `offset` of `source`.
pub open spec fn location(path: Seq<char>, source: Seq<char>, offset: int) -> Seq<char> {
    let (line, column) = position_of(source, offset);
    path + ":"@ + nat_decimal(line as nat) + ":"@ + nat_decimal(column as nat)
}

/// One `at` line per call frame, innermost first.
pub open spec fn frames_text(path: Seq<char>, source: Seq<char>, frames: Seq<TraceFrame>) -> Seq<
    char,
>
    decreases frames.len(),
{
    if frames.len() == 0 {
        Seq::empty()
    } else {
        frames_text(path, source, frames.drop_last()) + "\n  at "@ + frames.last().function@
            + " ("@ + location(path, source, frames.last().call_span.start as int) + ")"@
    }
}

/// The report of a raise: where it was raised and what, the calls it passed through, then the
/// raise it interrupted, newest first.
pub open spec fn trace_text(h: HeapV, path: Seq<char>, source: Seq<char>, r: Raised) -> Seq<char>
    decreases r,
{
    let head = location(path, source, r.origin.start as int) + ": raised "@ + render(h, r.value@)
        + frames_text(path, source, r.frames@);
    match r.cause {
        None => head,
        Some(cause) => head + "\ncaused by:\n"@ + trace_text(h, path, source, *cause),
    }
}

fn push_location(out: &mut String, path: &str, source: &str, offset: usize)
    requires
        source@.len() < usize::MAX,
    ensures
        final(out)@ == old(out)@ + location(path@, source@, offset as int),
{
    let (line, column) = line_column(source, offset);
    push_str(out, path);
    push_str(out, ":");
    push_u64_decimal(out, line as u64);
    push_str(out, ":");
    push_u64_decimal(out, column as u64);
    proof {
        assert(final(out)@ =~= old(out)@ + location(path@, source@, offset as int));
    }
}

fn push_trace(out: &mut String, path: &str, source: &str, raised: &Raised, heap: &Heap)
    requires
        source@.len() < usize::MAX,
    ensures
        final(out)@ == old(out)@ + trace_text(heap@, path@, source@, *raised),
    decreases raised,
{
    let ghost start = out@;
    push_location(out, path, source, raised.origin.start);
    push_str(out, ": raised ");
    let rendered = raised.value.render(heap);
    push_str(out, rendered.as_str());
    let ghost header = out@;
    let mut k: usize = 0;
    proof {
        assert(raised.frames@.take(0) =~= Seq::<TraceFrame>::empty());
        assert(out@ =~= header + frames_text(path@, source@, raised.frames@.take(0)));
    }
    while k < raised.frames.len()
        invariant
            k <= raised.frames@.len(),
            source@.len() < usize::MAX,
            out@ == header + frames_text(path@, source@, raised.frames@.take(k as int)),
        decreases raised.frames@.len() - k,
    {
        let frame = &raised.frames[k];
        push_str(out, "\n  at ");
        push_str(out, frame.function.as_str());
        push_str(out, " (");
        push_location(out, path, source, frame.call_span.start);
        push_str(out, ")");
        proof {
            let taken = raised.frames@.take(k + 1);
            assert(taken.drop_last() =~= raised.frames@.take(k as int));
            assert(out@ =~= header + frames_text(path@, source@, taken));
        }
        k = k + 1;
    }
    proof {
        assert(raised.frames@.take(k as int) =~= raised.frames@);
    }
    match &raised.cause {
        None => {
            assert(out@ =~= start + trace_text(heap@, path@, source@, *raised));
        },
        Some(cause) => {
            let ghost head = out@;
            push_str(out, "\ncaused by:\n");
            push_trace(out, path, source, cause, heap);
            assert(out@ =~= start + trace_text(heap@, path@, source@, *raised));
        },
    }
}

/// The report of a raise for a program read from `path`: each raise, newest first, as
/// `path:line:column: raised value` followed by its call frames, separated by `caused by:`.
pub fn format_raised_trace(path: &str, source: &str, raised: &Raised, heap: &Heap) -> (text:
    String)
    requires
        source@.len() < usize::MAX,
    ensures
        text@ == trace_text(heap@, path@, source@, *raised),
{
    let mut text = String::new();
    push_trace(&mut text, path, source, raised, heap);
    assert(text@ =~= trace_text(heap@, path@, source@, *raised));
    text
}

impl CliError {
    /// What the error says to the user: the path and the message, or the program's error.
    pub fn describe(&self) -> (text: String)
        ensures
            text@ == match self {
                CliError::Io { path, message } => path@ + ": "@ + message@,
                CliError::Package { path, message } => path@ + ": "@ + message@,
                CliError::Simi(error) => error.message_view(),
            },
    {
        match self {
            CliError::Io { path, message } | CliError::Package { path, message } => {
                let mut text = String::new();
                push_str(&mut text, path.as_str());
                push_str(&mut text, ": ");
                push_str(&mut text, message.as_str());
                text
            },
            CliError::Simi(error) => error.message(),
        }
    }
}

} // verus!
