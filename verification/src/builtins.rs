//! The built-in predicate registry and the deterministic printed form of
//! terms that `print/1` produces.

use vstd::prelude::*;

use crate::ir::{TermV, Value};
use crate::strings::{dec_digits, string_push};

verus! {

/// An ASCII lowercase letter.
pub open spec fn is_lower(c: char) -> bool {
    'a' <= c && c <= 'z'
}

/// A character allowed inside an unquoted atom.
pub open spec fn is_ident_char(c: char) -> bool {
    ||| ('a' <= c && c <= 'z')
    ||| ('A' <= c && c <= 'Z')
    ||| ('0' <= c && c <= '9')
    ||| c == '_'
}

/// An atom that reads back as itself without quotes.
pub open spec fn is_plain_atom(s: Seq<char>) -> bool {
    &&& s.len() >= 1
    &&& is_lower(s[0])
    &&& forall|i: int| 0 <= i < s.len() ==> is_ident_char(#[trigger] s[i])
}

/// The escaped form of one character inside a quoted atom.
pub open spec fn esc_char(c: char) -> Seq<char> {
    if c == '\\' {
        seq!['\\', '\\']
    } else if c == '\n' {
        seq!['\\', 'n']
    } else if c == '\t' {
        seq!['\\', 't']
    } else if c == '\r' {
        seq!['\\', 'r']
    } else if c == '\'' {
        seq!['\\', '\'']
    } else {
        seq![c]
    }
}

/// The escaped forms of the first `i` characters, concatenated.
pub open spec fn esc_upto(s: Seq<char>, i: int) -> Seq<char>
    decreases i,
{
    if i <= 0 {
        Seq::empty()
    } else {
        esc_upto(s, i - 1) + esc_char(s[i - 1])
    }
}

/// The printed form of an atom: itself when plain, quoted with escapes
/// otherwise.
pub open spec fn render_atom(s: Seq<char>) -> Seq<char> {
    if is_plain_atom(s) {
        s
    } else {
        seq!['\''] + esc_upto(s, s.len() as int) + seq!['\'']
    }
}

/// The decimal form of an integer.
pub open spec fn dec_int(n: int) -> Seq<char> {
    if n < 0 {
        seq!['-'] + dec_digits((-n) as nat)
    } else {
        dec_digits(n as nat)
    }
}

/// The printed form of a term: atoms possibly quoted, integers in decimal,
/// `_LV<id>` for logic variables, and `f(a, b)` for compounds, an
/// empty-arity compound printing as its functor alone.
pub open spec fn render_term(t: TermV) -> Seq<char>
    decreases t, 1int,
{
    match t {
        TermV::Atom(a) => render_atom(a),
        TermV::Num(n) => dec_int(n),
        TermV::LV(x) => seq!['_', 'L', 'V'] + dec_int(x),
        TermV::Ctor(f, args) => if args.len() == 0 {
            render_atom(f)
        } else {
            render_atom(f) + seq!['('] + render_args_upto(args, args.len() as int) + seq![')']
        },
    }
}

/// The printed forms of the first `i` arguments, comma-separated.
pub open spec fn render_args_upto(args: Seq<TermV>, i: int) -> Seq<char>
    decreases args, 0int, i,
{
    if i <= 0 || i > args.len() {
        Seq::empty()
    } else if i == 1 {
        render_term(args[0])
    } else {
        render_args_upto(args, i - 1) + seq![',', ' '] + render_term(args[i - 1])
    }
}

/// Append the escaped form of `c` to `out`.
fn push_escaped(out: &mut String, c: char)
    ensures
        final(out)@ == old(out)@ + esc_char(c),
{
    match c {
        '\\' => {
            string_push(out, '\\');
            string_push(out, '\\');
        },
        '\n' => {
            string_push(out, '\\');
            string_push(out, 'n');
        },
        '\t' => {
            string_push(out, '\\');
            string_push(out, 't');
        },
        '\r' => {
            string_push(out, '\\');
            string_push(out, 'r');
        },
        '\'' => {
            string_push(out, '\\');
            string_push(out, '\'');
        },
        c => {
            string_push(out, c);
        },
    }
    proof {
        assert(final(out)@ =~= old(out)@ + esc_char(c));
    }
}

/// Whether the atom prints without quotes.
fn atom_is_plain(a: &str) -> (r: bool)
    ensures
        r == is_plain_atom(a@),
{
    let n = a.unicode_len();
    if n == 0 {
        return false;
    }
    let c0 = a.get_char(0);
    if !(c0 >= 'a' && c0 <= 'z') {
        return false;
    }
    let mut i: usize = 0;
    while i < n
        invariant
            n == a@.len(),
            i <= n,
            forall|j: int| 0 <= j < i ==> is_ident_char(#[trigger] a@[j]),
        decreases n - i,
    {
        let c = a.get_char(i);
        let ok = (c >= 'a' && c <= 'z') || (c >= 'A' && c <= 'Z') || (c >= '0' && c <= '9') || c
            == '_';
        if !ok {
            return false;
        }
        i += 1;
    }
    true
}

/// Append the printed form of the atom `a` to `out`.
fn push_atom(out: &mut String, a: &str)
    ensures
        final(out)@ == old(out)@ + render_atom(a@),
{
    if atom_is_plain(a) {
        crate::strings::push_str(out, a);
    } else {
        string_push(out, '\'');
        let n = a.unicode_len();
        let mut i: usize = 0;
        while i < n
            invariant
                n == a@.len(),
                i <= n,
                out@ == old(out)@ + seq!['\''] + esc_upto(a@, i as int),
            decreases n - i,
        {
            push_escaped(out, a.get_char(i));
            proof {
                assert(out@ =~= old(out)@ + seq!['\''] + esc_upto(a@, i + 1));
            }
            i += 1;
        }
        string_push(out, '\'');
        proof {
            assert(out@ =~= old(out)@ + render_atom(a@));
        }
    }
}

/// Append the decimal form of `n` to `out`.
fn push_i64(out: &mut String, n: i64)
    ensures
        final(out)@ == old(out)@ + dec_int(n as int),
{
    if n < 0 {
        string_push(out, '-');
        let mag: u64 = if n == i64::MIN {
            9223372036854775808u64
        } else {
            (-n) as u64
        };
        crate::strings::push_u64(out, mag);
        proof {
            assert(final(out)@ =~= old(out)@ + dec_int(n as int));
        }
    } else {
        crate::strings::push_u64(out, n as u64);
    }
}

/// Append the printed form of `v` to `out`.
pub fn push_term(out: &mut String, v: &Value)
    ensures
        final(out)@ == old(out)@ + render_term(v@),
    decreases v, 1int,
{
    match v {
        Value::Atom(a) => {
            push_atom(out, a.as_str());
        },
        Value::Num(n) => {
            push_i64(out, *n);
        },
        Value::LV(x) => {
            crate::strings::push_str(out, "_LV");
            crate::strings::push_u64(out, *x);
            proof {
                reveal_strlit("_LV");
                assert(final(out)@ =~= old(out)@ + render_term(v@));
            }
        },
        Value::Ctor(f, args) => {
            broadcast use crate::ir::lemma_view_terms;

            push_atom(out, f.as_str());
            if args.len() > 0 {
                string_push(out, '(');
                let ghost avs = crate::ir::view_terms(args@);
                let n = args.len();
                let mut i: usize = 0;
                while i < n
                    invariant
                        n == args@.len() == avs.len(),
                        n >= 1,
                        avs == crate::ir::view_terms(args@),
                        v == Value::Ctor(*f, *args),
                        i <= n,
                        out@ == old(out)@ + render_atom(f@) + seq!['('] + render_args_upto(
                            avs,
                            i as int,
                        ),
                    decreases n - i,
                {
                    if i > 0 {
                        string_push(out, ',');
                        string_push(out, ' ');
                    }
                    proof {
                        crate::ir::lemma_ctor_arg_decreases(*v, i as int);
                        crate::ir::lemma_view_terms(args@);
                    }
                    push_term(out, &args[i]);
                    proof {
                        assert(out@ =~= old(out)@ + render_atom(f@) + seq!['('] + render_args_upto(
                            avs,
                            i + 1,
                        ));
                    }
                    i += 1;
                }
                string_push(out, ')');
                proof {
                    assert(out@ =~= old(out)@ + render_term(v@));
                }
            } else {
                proof {
                    crate::ir::lemma_view_terms(args@);
                    assert(out@ =~= old(out)@ + render_term(v@));
                }
            }
        },
    }
}

/// The printed form of `v` as a fresh string.
pub fn term_to_display(v: &Value) -> (r: String)
    ensures
        r@ == render_term(v@),
{
    let mut out = String::new();
    push_term(&mut out, v);
    proof {
        assert(out@ =~= render_term(v@));
    }
    out
}

/// The registry of built-in (system) predicates.  The one built-in is
/// `print/1`, which appends its argument's printed form to the machine's
/// output.
pub struct BuiltIns {}

impl BuiltIns {
    /// The registry with every built-in registered.
    pub fn new() -> (r: Self) {
        BuiltIns {  }
    }

    /// Whether a system predicate with this name and arity is registered.
    pub fn is_defined(&self, name: &String, arity: &usize) -> (r: bool)
        ensures
            r == (name@ == "print"@ && *arity == 1),
    {
        name.eq(&String::from_str("print")) && *arity == 1
    }
}

} // verus!