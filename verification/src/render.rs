//! Rendering values back to text: the display rule for tokens, the plain
//! form used by `print` and `str`, and the structural form used by `debug`.
use vstd::prelude::*;

use crate::numbers::render_number;
use crate::value::group_view_lemmas;
use crate::value::kind_name;
use crate::value::kind_name_spec;
use crate::value::view_tokens;
use crate::value::Token;
use crate::value::TokenType;
use crate::value::TokV;

verus! {

// ---------------------------------------------------------------------------
// Escaping
// ---------------------------------------------------------------------------

/// How one character appears inside a rendered string literal: newline,
/// tab and carriage return come out as escape pairs, everything else as
/// itself.
pub open spec fn escape_one(c: char) -> Seq<char> {
    if c == '\n' {
        seq!['\\', 'n']
    } else if c == '\t' {
        seq!['\\', 't']
    } else if c == '\r' {
        seq!['\\', 'r']
    } else {
        seq![c]
    }
}

pub open spec fn escape_chars(s: Seq<char>) -> Seq<char>
    decreases s,
{
    if s.len() == 0 {
        Seq::empty()
    } else {
        escape_chars(s.drop_last()) + escape_one(s.last())
    }
}

fn push_escaped(out: &mut String, s: &String)
    ensures
        final(out)@ == old(out)@ + escape_chars(s@),
{
    let n = s.as_str().unicode_len();
    let mut i: usize = 0;
    while i < n
        invariant
            i <= n,
            n == s@.len(),
            out@ == old(out)@ + escape_chars(s@.subrange(0, i as int)),
        decreases n - i,
    {
        let c = s.as_str().get_char(i);
        if c == '\n' {
            out.push('\\');
            out.push('n');
        } else if c == '\t' {
            out.push('\\');
            out.push('t');
        } else if c == '\r' {
            out.push('\\');
            out.push('r');
        } else {
            out.push(c);
        }
        proof {
            let pre = s@.subrange(0, i as int);
            let post = s@.subrange(0, i + 1 as int);
            assert(post.drop_last() =~= pre);
            assert(post.last() == s@[i as int]);
            assert(out@ =~= old(out)@ + escape_chars(post));
        }
        i += 1;
    }
    proof {
        assert(s@.subrange(0, s@.len() as int) =~= s@);
    }
}

// ---------------------------------------------------------------------------
// The display rule
// ---------------------------------------------------------------------------

/// The display form of a token: numbers render as decimals, strings render
/// quoted with the escape rule, booleans as words, the unit value as
/// `none`, lists bracketed with comma-separated elements, and every other
/// kind falls back to its text payload.
pub open spec fn render_display(t: TokV) -> Seq<char>
    decreases t,
{
    match t.kind {
        TokenType::Int => render_number(t.number),
        TokenType::Str => seq!['"'] + escape_chars(t.value) + seq!['"'],
        TokenType::Bool => if t.number == crate::numbers::SCALE as int {
            "true"@
        } else {
            "false"@
        },
        TokenType::NoneValue => "none"@,
        TokenType::List => seq!['['] + render_items(t.list) + seq![']'],
        _ => t.value,
    }
}

/// The elements of a list joined by a comma and a space.
pub open spec fn render_items(l: Seq<TokV>) -> Seq<char>
    decreases l,
{
    if l.len() == 0 {
        Seq::empty()
    } else if l.len() == 1 {
        render_display(l[0])
    } else {
        render_items(l.drop_last()) + ", "@ + render_display(l.last())
    }
}

/// The plain form used by `print` and `str`: strings come out unquoted,
/// numbers as decimals, booleans as words, everything else through the
/// display rule.
pub open spec fn print_form(t: TokV) -> Seq<char> {
    match t.kind {
        TokenType::Str => t.value,
        TokenType::Int => render_number(t.number),
        TokenType::Bool => if t.number == crate::numbers::SCALE as int {
            "true"@
        } else {
            "false"@
        },
        _ => render_display(t),
    }
}

fn push_display(out: &mut String, t: &Token)
    ensures
        final(out)@ == old(out)@ + render_display(t@),
    decreases *t,
{
    broadcast use group_view_lemmas;

    match t.kind {
        TokenType::Int => {
            let s = crate::numbers::num_to_string(t.number);
            out.append(s.as_str());
        },
        TokenType::Str => {
            out.push('"');
            push_escaped(out, &t.value);
            out.push('"');
            proof {
                assert(out@ =~= old(out)@ + render_display(t@));
            }
        },
        TokenType::Bool => {
            if t.number == crate::numbers::SCALE {
                out.append("true");
            } else {
                out.append("false");
            }
        },
        TokenType::NoneValue => {
            out.append("none");
        },
        TokenType::List => {
            out.push('[');
            let ghost mid = old(out)@ + seq!['['];
            let n = t.list.len();
            let mut i: usize = 0;
            while i < n
                invariant
                    i <= n,
                    n == t.list@.len(),
                    view_tokens(t.list@).len() == n,
                    forall|j: int|
                        0 <= j < n ==> #[trigger] view_tokens(t.list@)[j] == crate::value::view_token(
                            t.list@[j],
                        ),
                    out@ == mid + render_items(view_tokens(t.list@).subrange(0, i as int)),
                decreases n - i,
            {
                if i > 0 {
                    out.append(", ");
                }
                push_display(out, &t.list[i]);
                proof {
                    let full = view_tokens(t.list@);
                    let post = full.subrange(0, i + 1 as int);
                    assert(post.drop_last() =~= full.subrange(0, i as int));
                    assert(post.last() == full[i as int]);
                    if i == 0 {
                        assert(post.len() == 1);
                        assert(render_items(post) == render_display(post[0]));
                        assert(out@ =~= mid + render_items(post));
                    } else {
                        assert(out@ =~= mid + render_items(post));
                    }
                }
                i += 1;
            }
            out.push(']');
            proof {
                assert(view_tokens(t.list@).subrange(0, view_tokens(t.list@).len() as int)
                    =~= view_tokens(t.list@));
                assert(out@ =~= old(out)@ + render_display(t@));
            }
        },
        _ => {
            out.append(t.value.as_str());
        },
    }
}

impl Token {
    /// The display form of this token as text.
    pub fn to_display_string(&self) -> (r: String)
        ensures
            r@ == render_display(self@),
    {
        let mut out = String::new();
        push_display(&mut out, self);
        out
    }

    /// The plain form used by `print` and `str`.
    pub fn to_print_string(&self) -> (r: String)
        ensures
            r@ == print_form(self@),
    {
        match self.kind {
            TokenType::Str => self.value.clone(),
            TokenType::Int => crate::numbers::num_to_string(self.number),
            TokenType::Bool => {
                if self.number == crate::numbers::SCALE {
                    "true".to_owned()
                } else {
                    "false".to_owned()
                }
            },
            _ => self.to_display_string(),
        }
    }
}

// ---------------------------------------------------------------------------
// The structural debug form
// ---------------------------------------------------------------------------

/// The structural form used by `debug`: the kind's name wrapping the
/// payload. The `pretty` flag puts list elements on lines of their own.
pub open spec fn debug_form(t: TokV, pretty: bool) -> Seq<char>
    decreases t,
{
    match t.kind {
        TokenType::Int => "Int("@ + render_number(t.number) + seq![')'],
        TokenType::Str => "Str(\""@ + escape_chars(t.value) + "\")"@,
        TokenType::Bool => if t.number == crate::numbers::SCALE as int {
            "Bool(true)"@
        } else {
            "Bool(false)"@
        },
        TokenType::NoneValue => "None"@,
        TokenType::List => "List["@ + debug_items(t.list, pretty) + seq![']'],
        _ => kind_name_spec(t.kind) + seq!['('] + t.value + seq![')'],
    }
}

pub open spec fn debug_items(l: Seq<TokV>, pretty: bool) -> Seq<char>
    decreases l,
{
    if l.len() == 0 {
        Seq::empty()
    } else if l.len() == 1 {
        debug_form(l[0], pretty)
    } else {
        debug_items(l.drop_last(), pretty) + (if pretty {
            ",\n"@
        } else {
            ", "@
        }) + debug_form(l.last(), pretty)
    }
}

fn push_debug(out: &mut String, t: &Token, pretty: bool)
    ensures
        final(out)@ == old(out)@ + debug_form(t@, pretty),
    decreases *t,
{
    broadcast use group_view_lemmas;

    match t.kind {
        TokenType::Int => {
            out.append("Int(");
            let s = crate::numbers::num_to_string(t.number);
            out.append(s.as_str());
            out.push(')');
            proof {
                assert(out@ =~= old(out)@ + debug_form(t@, pretty));
            }
        },
        TokenType::Str => {
            out.append("Str(\"");
            push_escaped(out, &t.value);
            out.append("\")");
            proof {
                assert(out@ =~= old(out)@ + debug_form(t@, pretty));
            }
        },
        TokenType::Bool => {
            if t.number == crate::numbers::SCALE {
                out.append("Bool(true)");
            } else {
                out.append("Bool(false)");
            }
        },
        TokenType::NoneValue => {
            out.append("None");
        },
        TokenType::List => {
            out.append("List[");
            let ghost mid = old(out)@ + "List["@;
            let n = t.list.len();
            let mut i: usize = 0;
            while i < n
                invariant
                    i <= n,
                    n == t.list@.len(),
                    view_tokens(t.list@).len() == n,
                    forall|j: int|
                        0 <= j < n ==> #[trigger] view_tokens(t.list@)[j] == crate::value::view_token(
                            t.list@[j],
                        ),
                    out@ == mid + debug_items(view_tokens(t.list@).subrange(0, i as int), pretty),
                decreases n - i,
            {
                if i > 0 {
                    if pretty {
                        out.append(",\n");
                    } else {
                        out.append(", ");
                    }
                }
                push_debug(out, &t.list[i], pretty);
                proof {
                    let full = view_tokens(t.list@);
                    let post = full.subrange(0, i + 1 as int);
                    assert(post.drop_last() =~= full.subrange(0, i as int));
                    assert(post.last() == full[i as int]);
                    if i == 0 {
                        assert(post.len() == 1);
                        assert(debug_items(post, pretty) == debug_form(post[0], pretty));
                        assert(out@ =~= mid + debug_items(post, pretty));
                    } else {
                        assert(out@ =~= mid + debug_items(post, pretty));
                    }
                }
                i += 1;
            }
            out.push(']');
            proof {
                assert(view_tokens(t.list@).subrange(0, view_tokens(t.list@).len() as int)
                    =~= view_tokens(t.list@));
                assert(out@ =~= old(out)@ + debug_form(t@, pretty));
            }
        },
        _ => {
            let name = kind_name(t.kind);
            out.append(name.as_str());
            out.push('(');
            out.append(t.value.as_str());
            out.push(')');
            proof {
                assert(out@ =~= old(out)@ + debug_form(t@, pretty));
            }
        },
    }
}

/// The structural debug rendering of a token.
pub fn debug_string(t: &Token, pretty: bool) -> (r: String)
    ensures
        r@ == debug_form(t@, pretty),
{
    let mut out = String::new();
    push_debug(&mut out, t, pretty);
    out
}

} // verus!
