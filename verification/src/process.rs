//! Command lines and the results of commands.

use crate::error::Failure;
use crate::text;
use vstd::prelude::*;

verus! {

/// The text that `String::from_utf8_lossy` reads out of bytes.
pub uninterp spec fn lossy(bytes: Seq<u8>) -> Seq<char>;

/// `String::from_utf8_lossy`: bytes that are valid UTF-8 are read as what they encode. What
/// stands for bytes that are not is a function of the bytes, named here and not spelled out.
#[verifier::external_body]
pub(crate) fn lossy_text(bytes: &[u8]) -> (r: String)
    ensures
        r@ == lossy(bytes@),
        vstd::utf8::valid_utf8(bytes@) ==> r@ == vstd::utf8::decode_utf8(bytes@),
{
    String::from_utf8_lossy(bytes).into_owned()
}

/// `String::from_utf8`: the text that the bytes encode, if they are valid UTF-8.
#[verifier::external_body]
pub(crate) fn utf8_text(bytes: Vec<u8>) -> (r: Option<String>)
    ensures
        r is Some <==> vstd::utf8::valid_utf8(bytes@),
        r is Some ==> r->0@ == vstd::utf8::decode_utf8(bytes@),
{
    String::from_utf8(bytes).ok()
}

/// The text that explains a command's failure.
pub open spec fn exit_message(program: Seq<char>, code: Option<i32>, stderr: Seq<u8>) -> Seq<char> {
    program + " exited with "@ + text::signed_decimal(
        match code {
            Some(c) => c as int,
            None => -1int,
        },
    ) + ": "@ + text::trimmed(lossy(stderr))
}

fn exit_failure(program: &str, code: Option<i32>, stderr: &[u8]) -> (r: Failure)
    ensures
        r.message@ == exit_message(program@, code, stderr@),
{
    let number: i64 = match code {
        Some(c) => c as i64,
        None => -1,
    };
    let detail = text::trim(lossy_text(stderr).as_str());
    let shown = text::signed_decimal_string(number);
    Failure {
        message: text::concat5(program, " exited with ", shown.as_str(), ": ", detail.as_str()),
    }
}

/// The result of a command that ended: its output followed by its diagnostics, or the failure.
pub fn run_outcome(
    program: &str,
    success: bool,
    code: Option<i32>,
    stdout: &[u8],
    stderr: &[u8],
) -> (r: Result<String, Failure>)
    ensures
        r is Ok <==> success,
        r is Ok && stderr@.len() == 0 ==> r->Ok_0@ == lossy(stdout@),
        r is Ok && stderr@.len() > 0 ==> r->Ok_0@ == lossy(stdout@) + lossy(stderr@),
        r is Err ==> r->Err_0.message@ == exit_message(program@, code, stderr@),
{
    if !success {
        return Err(exit_failure(program, code, stderr));
    }
    let mut out = lossy_text(stdout);
    if stderr.len() > 0 {
        out.append(lossy_text(stderr).as_str());
    }
    Ok(out)
}

/// The result of a `docker` command that was given an input or a variable: its output alone, or
/// the failure.
pub fn docker_outcome(success: bool, code: Option<i32>, stdout: &[u8], stderr: &[u8]) -> (r: Result<
    String,
    Failure,
>)
    ensures
        r is Ok <==> success,
        r is Ok ==> r->Ok_0@ == lossy(stdout@),
        r is Err ==> r->Err_0.message@ == exit_message("docker"@, code, stderr@),
{
    if success {
        Ok(lossy_text(stdout))
    } else {
        Err(exit_failure("docker", code, stderr))
    }
}

/// `value` as one word of a POSIX shell.
pub open spec fn quoted(value: Seq<char>) -> Seq<char> {
    "'"@ + text::replaced(value, "'"@, "'\\''"@) + "'"@
}

/// `value` as one word of a POSIX shell: in single quotes, with each single quote written
/// outside them.
pub fn shell_quote(value: &str) -> (r: String)
    ensures
        r@ == quoted(value@),
{
    proof {
        reveal_strlit("'");
    }
    let body = text::replace(value, "'", "'\\''");
    text::concat3("'", body.as_str(), "'")
}

/// How a POSIX shell reads a word of single-quoted runs and backslash escapes; `None` where the
/// text is not one such word.
pub open spec fn shell_word(s: Seq<char>, inside: bool) -> Option<Seq<char>>
    decreases s.len(),
{
    if s.len() == 0 {
        if inside {
            None
        } else {
            Some(Seq::empty())
        }
    } else if s[0] == '\'' {
        shell_word(s.drop_first(), !inside)
    } else if inside {
        match shell_word(s.drop_first(), true) {
            Some(rest) => Some(seq![s[0]] + rest),
            None => None,
        }
    } else if s[0] == '\\' && s.len() > 1 {
        match shell_word(s.skip(2), false) {
            Some(rest) => Some(seq![s[1]] + rest),
            None => None,
        }
    } else {
        None
    }
}

proof fn lemma_quoted_body(value: Seq<char>)
    ensures
        shell_word(text::replaced(value, "'"@, "'\\''"@) + "'"@, true) == Some(value),
    decreases value.len(),
{
    reveal_strlit("'");
    reveal_strlit("'\\''");
    let q = "'"@;
    let body = text::replaced(value, q, "'\\''"@);
    let s = body + q;
    if value.len() == 0 {
        assert(s =~= seq!['\'']);
        assert(s.drop_first() =~= Seq::<char>::empty());
        assert(value =~= Seq::<char>::empty());
        assert(shell_word(s.drop_first(), false) == Some(Seq::<char>::empty()));
        assert(shell_word(s, true) == Some(value));
    } else {
        let tail = value.drop_first();
        lemma_quoted_body(tail);
        let rest = text::replaced(tail, q, "'\\''"@) + q;
        assert(value =~= seq![value[0]] + tail);
        if value[0] == '\'' {
            assert(value.subrange(0, 1) =~= q);
            assert(value.skip(1) =~= tail);
            assert(s =~= seq!['\'', '\\', '\'', '\''] + rest);
            assert(s.drop_first() =~= seq!['\\', '\'', '\''] + rest);
            let t = s.drop_first();
            assert(t.skip(2) =~= seq!['\''] + rest);
            assert(t.skip(2).drop_first() =~= rest);
            assert(shell_word(t.skip(2), false) == Some(tail));
            assert(shell_word(t, false) == Some(seq!['\''] + tail));
            assert(s[0] == '\'');
            assert(shell_word(s, true) == shell_word(t, false));
            assert(shell_word(s, true) == Some(value));
        } else {
            assert(!text::begins(value, q)) by {
                if text::begins(value, q) {
                    assert(value.subrange(0, 1)[0] == q[0]);
                }
            }
            assert(value.skip(1) =~= tail);
            assert(s =~= seq![value[0]] + rest);
            assert(s.drop_first() =~= rest);
            assert(s[0] == value[0]);
            assert(shell_word(s, true) == Some(seq![s[0]] + tail));
            assert(shell_word(s, true) == Some(value));
        }
    }
}

/// A shell reads a quoted value back as exactly that value.
pub proof fn law_shell_reads_back(value: Seq<char>)
    ensures
        shell_word(quoted(value), false) == Some(value),
{
    reveal_strlit("'");
    lemma_quoted_body(value);
    let s = quoted(value);
    assert(s.drop_first() =~= text::replaced(value, "'"@, "'\\''"@) + "'"@);
    assert(s[0] == '\'');
}

} // verus!
