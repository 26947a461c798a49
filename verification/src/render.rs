use vstd::prelude::*;
use crate::json::{Json, JsonView, lemma_arr_view_index, lemma_obj_view_index};

verus! {

/// Relies on String::push: appends the given character to the end of the
/// string.
pub assume_specification[ String::push ](s: &mut String, c: char)
    ensures
        final(s)@ == old(s)@.push(c),
;

/// The character for one digit value, in lower-case hexadecimal.
pub open spec fn hex_char(d: nat) -> char {
    if d == 0 {
        '0'
    } else if d == 1 {
        '1'
    } else if d == 2 {
        '2'
    } else if d == 3 {
        '3'
    } else if d == 4 {
        '4'
    } else if d == 5 {
        '5'
    } else if d == 6 {
        '6'
    } else if d == 7 {
        '7'
    } else if d == 8 {
        '8'
    } else if d == 9 {
        '9'
    } else if d == 10 {
        'a'
    } else if d == 11 {
        'b'
    } else if d == 12 {
        'c'
    } else if d == 13 {
        'd'
    } else if d == 14 {
        'e'
    } else {
        'f'
    }
}

/// The decimal digit characters of a number, most significant first.
pub open spec fn spec_digits(n: nat) -> Seq<char>
    decreases n,
{
    if n < 10 {
        seq![hex_char(n)]
    } else {
        spec_digits(n / 10).push(hex_char(n % 10))
    }
}

/// How one character of a text value is written inside a quoted string:
/// quotes and backslashes are escaped, control characters are written as a
/// four-digit escape, every other character stands as itself.
pub open spec fn escaped_char(c: char) -> Seq<char> {
    if c == '"' {
        seq!['\\', '"']
    } else if c == '\\' {
        seq!['\\', '\\']
    } else if (c as u32) < 32 {
        seq![
            '\\',
            'u',
            '0',
            '0',
            hex_char((c as u32 / 16) as nat),
            hex_char((c as u32 % 16) as nat),
        ]
    } else {
        seq![c]
    }
}

/// A text value with each character escaped as needed.
pub open spec fn escape_text(s: Seq<char>) -> Seq<char>
    decreases s,
{
    if s.len() == 0 {
        Seq::empty()
    } else {
        escaped_char(s[0]) + escape_text(s.drop_first())
    }
}

/// The rendered text of one document value.
pub open spec fn text_of_json(j: JsonView) -> Seq<char>
    decreases j,
{
    match j {
        JsonView::Null => "null"@,
        JsonView::Num(n) => spec_digits(n as nat),
        JsonView::Str(s) => seq!['"'] + escape_text(s) + seq!['"'],
        JsonView::Arr(es) => seq!['['] + text_of_elems(es) + seq![']'],
        JsonView::Obj(ms) => seq!['{'] + text_of_members(ms) + seq!['}'],
    }
}

/// The rendered elements of an array, separated by commas.
pub open spec fn text_of_elems(es: Seq<JsonView>) -> Seq<char>
    decreases es,
{
    if es.len() == 0 {
        Seq::empty()
    } else if es.len() == 1 {
        text_of_json(es[0])
    } else {
        text_of_json(es[0]) + seq![','] + text_of_elems(es.drop_first())
    }
}

/// The rendered text of one object member: the quoted, escaped name, a
/// colon, and the rendered value.
pub open spec fn text_of_member(m: (Seq<char>, JsonView)) -> Seq<char>
    decreases m,
{
    seq!['"'] + escape_text(m.0) + seq!['"', ':'] + text_of_json(m.1)
}

/// The rendered members of an object, separated by commas.
pub open spec fn text_of_members(ms: Seq<(Seq<char>, JsonView)>) -> Seq<char>
    decreases ms,
{
    if ms.len() == 0 {
        Seq::empty()
    } else if ms.len() == 1 {
        text_of_member(ms[0])
    } else {
        text_of_member(ms[0]) + seq![','] + text_of_members(ms.drop_first())
    }
}

/// Escaping a text value one character at a time agrees with escaping it
/// whole.
proof fn lemma_escape_text_push(s: Seq<char>, c: char)
    ensures
        escape_text(s.push(c)) == escape_text(s) + escaped_char(c),
    decreases s,
{
    if s.len() == 0 {
        assert(s.push(c).drop_first() =~= Seq::<char>::empty());
        assert(s.push(c)[0] == c);
        assert(escape_text(s.push(c)) == escaped_char(c) + escape_text(Seq::<char>::empty()));
        assert(escape_text(s.push(c)) =~= escape_text(s) + escaped_char(c));
    } else {
        assert(s.push(c).drop_first() =~= s.drop_first().push(c));
        lemma_escape_text_push(s.drop_first(), c);
        assert(s.push(c)[0] == s[0]);
        assert(escape_text(s.push(c)) == escaped_char(s[0]) + (escape_text(s.drop_first())
            + escaped_char(c)));
        assert(escape_text(s.push(c)) =~= escape_text(s) + escaped_char(c));
    }
}

/// Rendering one more array element appends a comma (except before the
/// first element) and the element's text.
proof fn lemma_text_of_elems_push(es: Seq<JsonView>, e: JsonView)
    ensures
        es.len() == 0 ==> text_of_elems(es.push(e)) == text_of_json(e),
        es.len() > 0 ==> text_of_elems(es.push(e)) == text_of_elems(es) + seq![',']
            + text_of_json(e),
    decreases es,
{
    if es.len() == 0 {
        assert(es.push(e)[0] == e);
    } else {
        assert(es.push(e).drop_first() =~= es.drop_first().push(e));
        lemma_text_of_elems_push(es.drop_first(), e);
        assert(es.push(e)[0] == es[0]);
        if es.len() == 1 {
            assert(text_of_elems(es.push(e)) =~= text_of_elems(es) + seq![','] + text_of_json(e));
        } else {
            assert(text_of_elems(es.push(e)) == text_of_json(es[0]) + seq![','] + (text_of_elems(
                es.drop_first(),
            ) + seq![','] + text_of_json(e)));
            assert(text_of_elems(es.push(e)) =~= text_of_elems(es) + seq![','] + text_of_json(e));
        }
    }
}

/// Rendering one more object member appends a comma (except before the
/// first member) and the member's text.
proof fn lemma_text_of_members_push(ms: Seq<(Seq<char>, JsonView)>, m: (Seq<char>, JsonView))
    ensures
        ms.len() == 0 ==> text_of_members(ms.push(m)) == text_of_member(m),
        ms.len() > 0 ==> text_of_members(ms.push(m)) == text_of_members(ms) + seq![',']
            + text_of_member(m),
    decreases ms,
{
    if ms.len() == 0 {
        assert(ms.push(m)[0] == m);
    } else {
        assert(ms.push(m).drop_first() =~= ms.drop_first().push(m));
        lemma_text_of_members_push(ms.drop_first(), m);
        assert(ms.push(m)[0] == ms[0]);
        if ms.len() == 1 {
            assert(text_of_members(ms.push(m)) =~= text_of_members(ms) + seq![',']
                + text_of_member(m));
        } else {
            assert(text_of_members(ms.push(m)) == text_of_member(ms[0]) + seq![','] + (
            text_of_members(ms.drop_first()) + seq![','] + text_of_member(m)));
            assert(text_of_members(ms.push(m)) =~= text_of_members(ms) + seq![',']
                + text_of_member(m));
        }
    }
}

/// Writes the character of one digit value.
fn push_hex_char(d: u32, out: &mut String)
    requires
        d < 16,
    ensures
        final(out)@ == old(out)@.push(hex_char(d as nat)),
{
    let c: char = if d == 0 {
        '0'
    } else if d == 1 {
        '1'
    } else if d == 2 {
        '2'
    } else if d == 3 {
        '3'
    } else if d == 4 {
        '4'
    } else if d == 5 {
        '5'
    } else if d == 6 {
        '6'
    } else if d == 7 {
        '7'
    } else if d == 8 {
        '8'
    } else if d == 9 {
        '9'
    } else if d == 10 {
        'a'
    } else if d == 11 {
        'b'
    } else if d == 12 {
        'c'
    } else if d == 13 {
        'd'
    } else if d == 14 {
        'e'
    } else {
        'f'
    };
    out.push(c);
}

/// Writes a number in decimal.
fn write_digits(n: u64, out: &mut String)
    ensures
        final(out)@ == old(out)@ + spec_digits(n as nat),
    decreases n,
{
    if n < 10 {
        push_hex_char(n as u32, out);
        proof {
            assert(old(out)@.push(hex_char(n as nat)) =~= old(out)@ + spec_digits(n as nat));
        }
    } else {
        write_digits(n / 10, out);
        push_hex_char((n % 10) as u32, out);
        proof {
            assert((old(out)@ + spec_digits((n / 10) as nat)).push(hex_char((n % 10) as nat))
                =~= old(out)@ + spec_digits(n as nat));
        }
    }
}

/// Writes a text value with each character escaped as needed.
#[verifier::loop_isolation(false)]
fn write_escaped(s: &str, out: &mut String)
    ensures
        final(out)@ == old(out)@ + escape_text(s@),
{
    let n = s.unicode_len();
    let mut i: usize = 0;
    while i < n
        invariant
            n == s@.len(),
            i <= n,
            out@ == old(out)@ + escape_text(s@.take(i as int)),
        decreases n - i,
    {
        let c = s.get_char(i);
        if c == '"' {
            out.push('\\');
            out.push('"');
        } else if c == '\\' {
            out.push('\\');
            out.push('\\');
        } else {
            let code = c as u32;
            if code < 32 {
                out.push('\\');
                out.push('u');
                out.push('0');
                out.push('0');
                push_hex_char(code / 16, out);
                push_hex_char(code % 16, out);
            } else {
                out.push(c);
            }
        }
        proof {
            assert(s@.take(i as int + 1) =~= s@.take(i as int).push(s@[i as int]));
            lemma_escape_text_push(s@.take(i as int), s@[i as int]);
            assert(out@ =~= old(out)@ + escape_text(s@.take(i as int + 1)));
        }
        i = i + 1;
    }
    proof {
        assert(s@.take(n as int) =~= s@);
    }
}

/// Writes one document value as text.
#[verifier::loop_isolation(false)]
#[verifier::rlimit(60)]
pub fn write_json(j: &Json, out: &mut String)
    ensures
        final(out)@ == old(out)@ + text_of_json(j@),
    decreases j,
{
    match j {
        Json::Null => {
            out.push('n');
            out.push('u');
            out.push('l');
            out.push('l');
            proof {
                reveal_strlit("null");
                assert(final(out)@ =~= old(out)@ + text_of_json(j@));
            }
        }
        Json::Num(n) => {
            write_digits(*n, out);
        }
        Json::Str(s) => {
            out.push('"');
            write_escaped(s.as_str(), out);
            out.push('"');
            proof {
                assert(final(out)@ =~= old(out)@ + text_of_json(j@));
            }
        }
        Json::Arr(elems) => {
            let ghost av = Json::arr_view(elems@);
            proof {
                lemma_arr_view_index(elems@);
            }
            out.push('[');
            let n = elems.len();
            for i in 0..n
                invariant
                    n == elems@.len(),
                    out@ == old(out)@.push('[') + text_of_elems(av.take(i as int)),
            {
                if i > 0 {
                    out.push(',');
                }
                proof {
                    assert(decreases_to!(j => *elems));
                    assert(decreases_to!(*elems => elems@));
                    assert(decreases_to!(elems@ => elems@[i as int]));
                }
                write_json(&elems[i], out);
                proof {
                    assert(av.take(i as int + 1) =~= av.take(i as int).push(av[i as int]));
                    lemma_text_of_elems_push(av.take(i as int), av[i as int]);
                    assert(out@ =~= old(out)@.push('[') + text_of_elems(av.take(i as int + 1)));
                }
            }
            out.push(']');
            proof {
                assert(av.take(n as int) =~= av);
                assert(final(out)@ =~= old(out)@ + text_of_json(j@));
            }
        }
        Json::Obj(members) => {
            let ghost mv = Json::obj_view(members@);
            proof {
                lemma_obj_view_index(members@);
            }
            out.push('{');
            let n = members.len();
            for i in 0..n
                invariant
                    n == members@.len(),
                    out@ == old(out)@.push('{') + text_of_members(mv.take(i as int)),
            {
                if i > 0 {
                    out.push(',');
                }
                let m = &members[i];
                out.push('"');
                write_escaped(m.0.as_str(), out);
                out.push('"');
                out.push(':');
                proof {
                    assert(decreases_to!(j => *members));
                    assert(decreases_to!(*members => members@));
                    assert(decreases_to!(members@ => members@[i as int]));
                    assert(decreases_to!(members@[i as int] => members@[i as int].1));
                }
                write_json(&m.1, out);
                proof {
                    assert(mv.take(i as int + 1) =~= mv.take(i as int).push(mv[i as int]));
                    lemma_text_of_members_push(mv.take(i as int), mv[i as int]);
                    assert(out@ =~= old(out)@.push('{') + text_of_members(mv.take(i as int + 1)));
                }
            }
            out.push('}');
            proof {
                assert(mv.take(n as int) =~= mv);
                assert(final(out)@ =~= old(out)@ + text_of_json(j@));
            }
        }
    }
}

/// Renders one document value to its text.
pub fn render_json(j: &Json) -> (r: String)
    ensures
        r@ == text_of_json(j@),
{
    let mut out = String::new();
    write_json(j, &mut out);
    out
}

} // verus!
