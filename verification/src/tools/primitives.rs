//! The decision logic of the four tool primitives (read, write, edit,
//! bash): which lines a read returns, what an edit makes of a file's text,
//! and how a finished or timed-out command is reported.
use vstd::prelude::*;
use crate::error::Error;
use crate::text::{
    chars_of, concat, concat3, contains, contains_chars, join, join_range, lines, replace_all,
    replace_chars, split_lines, string_of, u64_to_decimal, decimal, views,
};

verus! {

/// The four primitive tools.
pub struct ToolSet;

/// What a finished shell command produced.
#[derive(Debug)]
pub struct ExecResult {
    pub stdout: String,
    pub stderr: String,
    pub exit_code: Option<i32>,
    pub success: bool,
}

/// The first line a read returns: the offset, or the line count when the
/// offset is past the end.
pub open spec fn read_start(line_count: int, offset: Option<usize>) -> int {
    let o: int = match offset {
        Some(o) => o as int,
        None => 0,
    };
    if o < line_count { o } else { line_count }
}

/// The line after the last one a read returns.
pub open spec fn read_end(line_count: int, offset: Option<usize>, limit: Option<usize>) -> int {
    match limit {
        Some(l) => {
            let e = read_start(line_count, offset) + l;
            if e < line_count { e } else { line_count }
        },
        None => line_count,
    }
}

/// What a read of `content` returns: the selected lines joined by `\n`.
pub open spec fn read_result(content: Seq<char>, offset: Option<usize>, limit: Option<usize>) -> Seq<
    char,
> {
    let ls = lines(content);
    join(
        ls.subrange(
            read_start(ls.len() as int, offset),
            read_end(ls.len() as int, offset, limit),
        ),
        seq!['\n'],
    )
}

/// The selection arithmetic stays within `usize` (the limit added to the
/// first selected line's number does not overflow).
pub open spec fn read_fits(content: Seq<char>, offset: Option<usize>, limit: Option<usize>) -> bool {
    limit matches Some(l) ==> read_start(lines(content).len() as int, offset) + l <= usize::MAX
}

/// The message of the error for an edit whose target is missing.
pub open spec fn edit_missing_message(old_string: Seq<char>) -> Seq<char> {
    "Edit target not found in file: "@ + old_string
}

/// The message of the error for a command that ran out of time.
pub open spec fn timeout_message(secs: u64, command: Seq<char>) -> Seq<char> {
    "Command timed out after "@ + decimal(secs as nat) + " seconds: "@ + command
}

/// A read with no limit ends at the last line: it returns every line from
/// the offset (or nothing, when the offset is past the end) onward.
pub proof fn lemma_read_to_end(content: Seq<char>, offset: Option<usize>)
    ensures
        read_end(lines(content).len() as int, offset, None) == lines(content).len(),
        read_result(content, offset, None) == join(
            lines(content).skip(
                match offset {
                    Some(o) => if (o as int) < lines(content).len() {
                        o as int
                    } else {
                        lines(content).len() as int
                    },
                    None => 0,
                },
            ),
            seq!['\n'],
        ),
{
    let ls = lines(content);
    let n = ls.len() as int;
    let start = match offset {
        Some(o) => if (o as int) < n {
            o as int
        } else {
            n
        },
        None => 0,
    };
    assert(ls.subrange(start, n) =~= ls.skip(start));
}

/// A read with no limit returns the same text as a read whose limit reaches
/// the last line.
pub proof fn lemma_read_without_limit(content: Seq<char>, offset: Option<usize>, limit: usize)
    requires
        (match offset {
            Some(o) => o as int,
            None => 0,
        }) + limit >= lines(content).len(),
    ensures
        read_result(content, offset, None) == read_result(content, offset, Some(limit)),
{
    lemma_read_to_end(content, offset);
    let ls = lines(content);
    let n = ls.len() as int;
    let start = match offset {
        Some(o) => if (o as int) < n {
            o as int
        } else {
            n
        },
        None => 0,
    };
    assert(ls.subrange(start, n) =~= ls.skip(start));
}

impl ToolSet {
    /// The lines of `content` that a read with this offset and limit
    /// returns, joined with `\n`.
    pub fn select_lines(content: &str, offset: Option<usize>, limit: Option<usize>) -> (out: String)
        requires
            read_fits(content@, offset, limit),
        ensures
            out@ == read_result(content@, offset, limit),
            limit is None ==> out@ == join(
                lines(content@).skip(
                    match offset {
                        Some(o) => if (o as int) < lines(content@).len() {
                            o as int
                        } else {
                            lines(content@).len() as int
                        },
                        None => 0,
                    },
                ),
                seq!['\n'],
            ),
    {
        proof {
            lemma_read_to_end(content@, offset);
        }
        let chars = chars_of(content);
        let ls = split_lines(&chars);
        let count = ls.len();
        let o = match offset {
            Some(o) => o,
            None => 0,
        };
        let start = if o < count { o } else { count };
        let end = match limit {
            Some(l) => {
                let e = start + l;
                if e < count { e } else { count }
            },
            None => count,
        };
        let mut sep: Vec<char> = Vec::new();
        sep.push('\n');
        assert(sep@ =~= seq!['\n']);
        assert(views(ls@).len() == count);
        let joined = join_range(&ls, start, end, &sep);
        string_of(joined.as_slice())
    }

    /// The new text of a file after replacing every occurrence of
    /// `old_string` with `new_string`; an error when `old_string` does not
    /// occur.
    pub fn edited_content(content: &str, old_string: &str, new_string: &str) -> (r: Result<
        String,
        Error,
    >)
        ensures
            contains(content@, old_string@) ==> (r matches Ok(s) && s@ == replace_all(
                content@,
                old_string@,
                new_string@,
            )),
            !contains(content@, old_string@) ==> (r matches Err(Error::Validation(m)) && m@
                == edit_missing_message(old_string@)),
    {
        let c = chars_of(content);
        let o = chars_of(old_string);
        if !contains_chars(&c, &o) {
            return Err(Error::Validation(concat("Edit target not found in file: ", old_string)));
        }
        let n = chars_of(new_string);
        let replaced = replace_chars(&c, &o, &n);
        Ok(string_of(replaced.as_slice()))
    }

    /// The error for a command that did not finish within `secs` seconds.
    pub fn timeout_error(secs: u64, command: &str) -> (e: Error)
        ensures
            e matches Error::Validation(m) && m@ == timeout_message(secs, command@),
    {
        let n = u64_to_decimal(secs);
        let head = concat3("Command timed out after ", n.as_str(), " seconds: ");
        Error::Validation(concat(head.as_str(), command))
    }

    /// The outcome of a finished command: an error when it failed and wrote
    /// to its error stream, else its output.
    pub fn command_outcome(
        command: &str,
        stdout: String,
        stderr: String,
        exit_code: Option<i32>,
        success: bool,
    ) -> (r: Result<ExecResult, Error>)
        ensures
            !success && stderr@.len() > 0 ==> (r matches Err(
                Error::ToolExecution { command: c, stderr: e },
            ) && c@ == command@ && e == stderr),
            success || stderr@.len() == 0 ==> r == Ok::<ExecResult, Error>(
                ExecResult { stdout, stderr, exit_code, success },
            ),
    {
        if !success && !stderr.as_str().is_empty() {
            return Err(Error::tool_execution(command.to_owned(), stderr));
        }
        Ok(ExecResult { stdout, stderr, exit_code, success })
    }
}

} // verus!
