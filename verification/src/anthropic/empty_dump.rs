//! Sampling of empty answers: the request body of an upstream call that
//! answered "HTTP 200 but produced nothing" is written to disk for diagnosis.
//!
//! The switch is off by default and costs nothing then; it is read from the
//! environment once.  This module holds the decisions: what switch value turns
//! sampling on, which directory is used, what file name a trace id gives, and
//! how much of a body is kept.  Reading the environment and writing the file
//! is the caller's part.
use vstd::prelude::*;
use vstd::string::StringSliceAdditionalSpecFns;

use crate::text::{
    ascii_lowercase, ascii_lowercase_chars, boundary_at_most, chars_of, cut_to_byte_len,
    same_text, string_from_chars, trim, trim_chars,
};

verus! {

broadcast use vstd::string::group_string_axioms;

/// Largest request body kept, in bytes: the diagnosis needs the structure and
/// the shape of both ends, not a 50 MB body that would fill the disk.
pub const BODY_MAX: usize = 2 * 1024 * 1024;

/// Longest file name stem kept from a trace id, in characters.
pub const TRACE_ID_MAX_CHARS: usize = 64;

/// A switch value that turns sampling on: `1`, `true` or `yes`, ignoring
/// surrounding white space and ASCII case.
pub open spec fn is_on_value(value: Seq<char>) -> bool {
    let v = ascii_lowercase_chars(trim_chars(value));
    v == "1"@ || v == "true"@ || v == "yes"@
}

/// Whether the switch, as read from the environment (`None` when unset or not
/// Unicode), turns sampling on.
pub fn switch_enabled(value: Option<&str>) -> (r: bool)
    ensures
        r == match value {
            Some(v) => is_on_value(v@),
            None => false,
        },
{
    match value {
        Some(v) => {
            let trimmed = trim(v);
            let lowered = ascii_lowercase(trimmed.as_str());
            same_text(lowered.as_str(), "1") || same_text(lowered.as_str(), "true") || same_text(
                lowered.as_str(),
                "yes",
            )
        },
        None => false,
    }
}

/// The dump directory, as read from the environment (`None` when unset):
/// the value itself unless it is blank, `dump` otherwise.
pub open spec fn dump_dir_name(value: Option<Seq<char>>) -> Seq<char> {
    match value {
        Some(v) => if trim_chars(v).len() > 0 {
            v
        } else {
            "dump"@
        },
        None => "dump"@,
    }
}

/// The directory dumps go to, from the environment value (`None` when unset).
pub fn dump_dir(value: Option<&str>) -> (r: String)
    ensures
        r@ == dump_dir_name(
            match value {
                Some(v) => Some(v@),
                None => None,
            },
        ),
{
    match value {
        Some(v) => {
            let trimmed = trim(v);
            if trimmed.as_str().is_empty() {
                "dump".to_string()
            } else {
                v.to_string()
            }
        },
        None => "dump".to_string(),
    }
}

/// Characters a dump file name may hold: ASCII letters and digits, `-` and
/// `_`.
pub open spec fn is_file_name_char(c: char) -> bool {
    ||| 'a' <= c <= 'z'
    ||| 'A' <= c <= 'Z'
    ||| '0' <= c <= '9'
    ||| c == '-'
    ||| c == '_'
}

/// The characters of `s` a file name may hold, in order.
pub open spec fn file_name_chars(s: Seq<char>) -> Seq<char>
    decreases s.len(),
{
    if s.len() == 0 {
        Seq::empty()
    } else if is_file_name_char(s[0]) {
        seq![s[0]] + file_name_chars(s.drop_first())
    } else {
        file_name_chars(s.drop_first())
    }
}

/// The safe file name stem of a trace id: its file-name characters, at most
/// `TRACE_ID_MAX_CHARS` of them.
pub open spec fn sanitized_id(id: Seq<char>) -> Seq<char> {
    let kept = file_name_chars(id);
    if kept.len() <= TRACE_ID_MAX_CHARS {
        kept
    } else {
        kept.take(TRACE_ID_MAX_CHARS as int)
    }
}

/// Keeps only file-name-safe characters of a trace id, so that an odd id
/// cannot climb out of the dump directory.
pub fn sanitize(id: &str) -> (r: String)
    ensures
        r@ == sanitized_id(id@),
{
    let cs = chars_of(id);
    let n = cs.len();
    let mut out: Vec<char> = Vec::new();
    let mut i: usize = 0;
    assert(cs@.subrange(0, n as int) == cs@);
    while i < n && out.len() < TRACE_ID_MAX_CHARS
        invariant
            n == cs@.len(),
            i <= n,
            out@.len() <= TRACE_ID_MAX_CHARS,
            file_name_chars(cs@) == out@ + file_name_chars(cs@.subrange(i as int, n as int)),
        decreases n - i,
    {
        let c = cs[i];
        let ghost rest = cs@.subrange(i as int, n as int);
        assert(rest.drop_first() == cs@.subrange(i + 1, n as int));
        assert(rest[0] == c);
        if ('a' <= c && c <= 'z') || ('A' <= c && c <= 'Z') || ('0' <= c && c <= '9') || c == '-'
            || c == '_' {
            let ghost before = out@;
            out.push(c);
            assert(before + (seq![c] + file_name_chars(cs@.subrange(i + 1, n as int))) =~= out@
                + file_name_chars(cs@.subrange(i + 1, n as int)));
        }
        i = i + 1;
    }
    proof {
        let kept = file_name_chars(cs@);
        if i == n {
            assert(cs@.subrange(n as int, n as int) =~= Seq::<char>::empty());
            assert(kept =~= out@);
        } else {
            assert(kept.take(TRACE_ID_MAX_CHARS as int) =~= out@);
        }
    }
    string_from_chars(out.as_slice())
}

/// Cuts a body to at most `BODY_MAX` bytes at a character boundary; the flag
/// tells whether anything was cut off.
pub fn truncate(body: &str) -> (r: (&str, bool))
    ensures
        body.spec_bytes().len() <= BODY_MAX ==> r.0@ == body@ && !r.1,
        body.spec_bytes().len() > BODY_MAX ==> {
            &&& r.1
            &&& r.0.spec_bytes() == body.spec_bytes().subrange(
                0,
                boundary_at_most(body.spec_bytes(), BODY_MAX as int),
            )
            &&& body@.subrange(0, r.0@.len() as int) == r.0@
        },
        r.0.spec_bytes().len() <= BODY_MAX,
{
    cut_to_byte_len(body, BODY_MAX)
}

/// Only file-name characters survive the filter.
proof fn lemma_file_name_chars_safe(s: Seq<char>)
    ensures
        forall|i: int|
            0 <= i < file_name_chars(s).len() ==> #[trigger] is_file_name_char(
                file_name_chars(s)[i],
            ),
        file_name_chars(s).len() <= s.len(),
    decreases s.len(),
{
    if s.len() > 0 {
        lemma_file_name_chars_safe(s.drop_first());
        if is_file_name_char(s[0]) {
            let rest = file_name_chars(s.drop_first());
            assert forall|i: int| 0 <= i < file_name_chars(s).len() implies #[trigger] is_file_name_char(
                file_name_chars(s)[i],
            ) by {
                if i > 0 {
                    assert(file_name_chars(s)[i] == rest[i - 1]);
                }
            }
        }
    }
}

/// A sanitized trace id is a safe file name stem: at most
/// `TRACE_ID_MAX_CHARS` characters, each an ASCII letter, digit, `-` or `_`,
/// so no path separator or dot can lead out of the dump directory; and an id
/// already made of such characters and short enough is kept as it is.
pub proof fn lemma_sanitized_id_is_safe(id: Seq<char>)
    ensures
        sanitized_id(id).len() <= TRACE_ID_MAX_CHARS,
        forall|i: int|
            0 <= i < sanitized_id(id).len() ==> #[trigger] is_file_name_char(sanitized_id(id)[i]),
        (id.len() <= TRACE_ID_MAX_CHARS && forall|i: int|
            0 <= i < id.len() ==> #[trigger] is_file_name_char(id[i])) ==> sanitized_id(id) == id,
{
    lemma_file_name_chars_safe(id);
    if id.len() <= TRACE_ID_MAX_CHARS && forall|i: int|
        0 <= i < id.len() ==> #[trigger] is_file_name_char(id[i]) {
        lemma_file_name_chars_keeps_safe(id);
    }
}

/// A text of file-name characters passes the filter unchanged.
proof fn lemma_file_name_chars_keeps_safe(s: Seq<char>)
    requires
        forall|i: int| 0 <= i < s.len() ==> #[trigger] is_file_name_char(s[i]),
    ensures
        file_name_chars(s) == s,
    decreases s.len(),
{
    if s.len() > 0 {
        assert(is_file_name_char(s[0]));
        assert forall|i: int| 0 <= i < s.drop_first().len() implies #[trigger] is_file_name_char(
            s.drop_first()[i],
        ) by {
            assert(s.drop_first()[i] == s[i + 1]);
        }
        lemma_file_name_chars_keeps_safe(s.drop_first());
        assert(seq![s[0]] + s.drop_first() =~= s);
    }
}

/// The switch is on exactly for `1`, `true` and `yes` (surrounding white
/// space and ASCII case aside); in particular `0`, `false`, `no`, `off` and a
/// blank value leave it off.
pub proof fn lemma_switch_on_words(value: Seq<char>)
    ensures
        ({
            let w = ascii_lowercase_chars(trim_chars(value));
            &&& is_on_value(value) <==> (w == "1"@ || w == "true"@ || w == "yes"@)
            &&& (w == "0"@ || w == "false"@ || w == "no"@ || w == "off"@ || w.len() == 0)
                ==> !is_on_value(value)
        }),
{
    reveal_strlit("1");
    reveal_strlit("true");
    reveal_strlit("yes");
    reveal_strlit("0");
    reveal_strlit("false");
    reveal_strlit("no");
    reveal_strlit("off");
    assert("1"@.len() == 1);
    assert("true"@.len() == 4);
    assert("yes"@.len() == 3);
    assert("0"@.len() == 1);
    assert("false"@.len() == 5);
    assert("no"@.len() == 2);
    assert("off"@.len() == 3);
    assert("1"@[0] != "0"@[0]);
    assert("yes"@[0] != "off"@[0]);
}

} // verus!
