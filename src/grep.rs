//! The shell pipeline that reproduces a chain with `grep`.
use vstd::prelude::*;
use vstd::string::*;
use crate::state::{SearchLine, Stage, prefixed, stages_of};
use crate::text::{decimal, push_char, push_decimal, to_chars};

verus! {

/// `s` with each single quote written as `'\''`, so that it can stand
/// between single quotes in a shell command.
pub open spec fn escape_quotes(s: Seq<char>) -> Seq<char>
    decreases s.len(),
{
    if s.len() == 0 {
        Seq::empty()
    } else {
        escape_quotes(s.drop_last()) + if s.last() == '\'' {
            seq!['\'', '\\', '\'', '\'']
        } else {
            seq![s.last()]
        }
    }
}

/// The command for one stage: `grep`, `--context N` where the stage has
/// context and is not inverted, `-v` where it is inverted, and the quoted
/// pattern.
pub open spec fn grep_command(s: Stage) -> Seq<char> {
    "grep"@ + (if s.context > 0 && !s.inverse {
        " --context "@ + decimal(s.context as nat)
    } else {
        Seq::empty()
    }) + (if s.inverse { " -v"@ } else { Seq::empty() }) + " --perl-regexp '"@ + escape_quotes(prefixed(s)) + "'"@
}

/// The commands of the non-empty stages, joined by ` | `.
pub open spec fn grep_pipeline(stages: Seq<Stage>) -> Seq<char>
    decreases stages.len(),
{
    if stages.len() == 0 {
        Seq::empty()
    } else {
        let pre = grep_pipeline(stages.drop_last());
        if stages.last().text.len() == 0 {
            pre
        } else if pre.len() == 0 {
            grep_command(stages.last())
        } else {
            pre + " | "@ + grep_command(stages.last())
        }
    }
}

/// The program that the pipeline runs.
pub fn grep_path() -> (r: String)
    ensures
        r@ == "grep"@,
{
    String::from_str("grep")
}

/// Appends `s` with its single quotes escaped.
fn push_escaped(out: &mut String, s: &str)
    ensures
        final(out)@ == old(out)@ + escape_quotes(s@),
{
    let chars = to_chars(s);
    let ghost start = out@;
    let mut i: usize = 0;
    while i < chars.len()
        invariant
            0 <= i <= chars@.len(),
            chars@ == s@,
            out@ == start + escape_quotes(chars@.subrange(0, i as int)),
        decreases chars@.len() - i,
    {
        let c = chars[i];
        let ghost prev = out@;
        assert(chars@.subrange(0, i + 1).drop_last() =~= chars@.subrange(0, i as int));
        if c == '\'' {
            push_char(out, '\'');
            push_char(out, '\\');
            push_char(out, '\'');
            push_char(out, '\'');
        } else {
            push_char(out, c);
        }
        assert(out@ =~= start + escape_quotes(chars@.subrange(0, i + 1)));
        i = i + 1;
    }
    assert(chars@.subrange(0, i as int) =~= s@);
}

/// Appends the command for one stage.
fn push_grep_command(out: &mut String, l: &SearchLine)
    ensures
        final(out)@ == old(out)@ + grep_command(l@),
{
    let ghost start = out@;
    let path = grep_path();
    out.append(path.as_str());
    if l.context > 0 && !l.inverse {
        out.append(" --context ");
        push_decimal(out, l.context);
    }
    if l.inverse {
        out.append(" -v");
    }
    out.append(" --perl-regexp '");
    let pattern = l.line_with_sensitivity_prefix();
    push_escaped(out, pattern.as_str());
    out.append("'");
    assert(out@ =~= start + grep_command(l@));
}

/// The shell pipeline for the stages: one `grep` per non-empty stage, joined
/// by pipes.
pub fn construct_grep_line(search_lines: &Vec<SearchLine>) -> (r: String)
    ensures
        r@ == grep_pipeline(stages_of(search_lines@)),
{
    let ghost st = stages_of(search_lines@);
    let mut out = String::new();
    let mut any = false;
    let mut i: usize = 0;
    while i < search_lines.len()
        invariant
            0 <= i <= search_lines@.len(),
            st == stages_of(search_lines@),
            out@ == grep_pipeline(st.subrange(0, i as int)),
            any == (out@.len() > 0),
        decreases search_lines@.len() - i,
    {
        let l = &search_lines[i];
        assert(st.subrange(0, i + 1).drop_last() =~= st.subrange(0, i as int));
        assert(st.subrange(0, i + 1).last() == l@);
        if !l.line.as_str().is_empty() {
            if any {
                out.append(" | ");
            }
            push_grep_command(&mut out, l);
            proof {
                reveal_strlit("grep");
            }
            any = true;
        }
        i = i + 1;
    }
    assert(st.subrange(0, i as int) =~= st);
    out
}

} // verus!
