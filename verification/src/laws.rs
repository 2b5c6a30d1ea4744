//! The general laws of the language, each proved against the model in
//! [`crate::semantics`]: what evaluation does to the kinds of values, what
//! the calling protocols guarantee, and how parsing undoes rendering.

use vstd::prelude::*;

use crate::atoms::{all_digits, digits_val, parse_int_spec};
use crate::expression::{dec_str, digit_char, int_str};
use crate::semantics::{
    apply_spec, assoc_get, atom_of_token, bind_params, eval_args_spec, eval_spec, quote_rewrite,
    parse_list_spec, parse_spec, render_val, step_err, step_ok, EnvModel, Fault, Val,
};
use crate::token::TokenModel;

verus! {

/// A number evaluates to itself, in any environment, and leaves the
/// environment as it stands.
pub proof fn law_numbers_self_evaluate(n: int, env: EnvModel, fuel: nat)
    requires
        fuel >= 1,
    ensures
        eval_spec(Val::Number { value: n }, env, fuel) == step_ok(Val::Number { value: n }, env),
{
}

/// A symbol that no binding carries evaluates to an unbound-variable fault
/// naming that symbol, and leaves the environment as it stands.
pub proof fn law_unbound_symbols_fail(name: Seq<char>, env: EnvModel, fuel: nat)
    requires
        fuel >= 1,
        assoc_get(env, name) is None,
    ensures
        eval_spec(Val::Symbol { name }, env, fuel) == step_err(Fault::Unbound { name }, env),
{
}

/// Calling a lambda with fewer evaluated arguments than parameters yields a
/// new lambda whose parameter list is the unconsumed suffix and whose
/// captured scope already carries the bindings made so far.
pub proof fn law_partial_application_curries(
    params: Seq<Seq<char>>,
    body: Box<Val>,
    clo: EnvModel,
    args: Seq<Val>,
    vals: Seq<Val>,
    env: EnvModel,
    after: EnvModel,
    fuel: nat,
)
    requires
        fuel >= 1,
        eval_args_spec(args, env, (fuel - 1) as nat) == (crate::semantics::ArgsStep {
            outcome: Ok::<Seq<Val>, Fault>(vals),
            env: after,
        }),
        vals.len() < params.len(),
    ensures
        apply_spec(Val::Lambda { params, body, env: clo }, args, env, fuel) == step_ok(
            Val::Lambda {
                params: params.skip(vals.len() as int),
                body,
                env: bind_params(clo, params, vals),
            },
            after,
        ),
{
}

/// Calling a lambda with more evaluated arguments than parameters is a
/// fault.
pub proof fn law_too_many_arguments_fail(
    params: Seq<Seq<char>>,
    body: Box<Val>,
    clo: EnvModel,
    args: Seq<Val>,
    vals: Seq<Val>,
    env: EnvModel,
    after: EnvModel,
    fuel: nat,
)
    requires
        fuel >= 1,
        eval_args_spec(args, env, (fuel - 1) as nat) == (crate::semantics::ArgsStep {
            outcome: Ok::<Seq<Val>, Fault>(vals),
            env: after,
        }),
        vals.len() > params.len(),
    ensures
        apply_spec(Val::Lambda { params, body, env: clo }, args, env, fuel) == step_err(
            Fault::TooManyArguments,
            after,
        ),
{
}

/// A lambda's result is determined by the lambda value and its evaluated
/// arguments alone: two calls whose arguments evaluate to the same values
/// give the same outcome under any two caller environments. In particular,
/// a binding added to the defining scope after capture is invisible inside
/// the lambda's later calls: it changes the caller's environment only, and
/// never the captured scope inside the lambda value.
pub proof fn law_capture_isolates_callers(
    lambda: Val,
    args1: Seq<Val>,
    env1: EnvModel,
    args2: Seq<Val>,
    env2: EnvModel,
    vals: Seq<Val>,
    after1: EnvModel,
    after2: EnvModel,
    fuel: nat,
)
    requires
        fuel >= 1,
        lambda is Lambda,
        eval_args_spec(args1, env1, (fuel - 1) as nat) == (crate::semantics::ArgsStep {
            outcome: Ok::<Seq<Val>, Fault>(vals),
            env: after1,
        }),
        eval_args_spec(args2, env2, (fuel - 1) as nat) == (crate::semantics::ArgsStep {
            outcome: Ok::<Seq<Val>, Fault>(vals),
            env: after2,
        }),
    ensures
        apply_spec(lambda, args1, env1, fuel).outcome == apply_spec(
            lambda,
            args2,
            env2,
            fuel,
        ).outcome,
{
}

/// Calling a macro with fewer arguments than parameters binds the argument
/// expressions themselves, unevaluated, and yields a macro holding the
/// unconsumed parameter suffix.
pub proof fn law_macro_binds_arguments_unevaluated(
    params: Seq<Seq<char>>,
    body: Box<Val>,
    clo: EnvModel,
    args: Seq<Val>,
    env: EnvModel,
    fuel: nat,
)
    requires
        fuel >= 1,
        args.len() < params.len(),
    ensures
        apply_spec(Val::Macro { params, body, env: clo }, args, env, fuel) == step_ok(
            Val::Macro {
                params: params.skip(args.len() as int),
                body,
                env: bind_params(clo, params, args),
            },
            env,
        ),
{
}

/// A saturated macro call evaluates its body once in the captured scope
/// with the raw arguments bound, and then evaluates the resulting
/// expansion a second time in the caller's environment.
pub proof fn law_macro_expands_then_evaluates(
    params: Seq<Seq<char>>,
    body: Box<Val>,
    clo: EnvModel,
    args: Seq<Val>,
    env: EnvModel,
    fuel: nat,
)
    requires
        fuel >= 1,
        args.len() == params.len(),
    ensures
        apply_spec(Val::Macro { params, body, env: clo }, args, env, fuel) == {
            let expansion = eval_spec(*body, bind_params(clo, params, args), (fuel - 1) as nat);
            match expansion.outcome {
                Err(f) => step_err(f, env),
                Ok(x) => eval_spec(x, env, (fuel - 1) as nat),
            }
        },
{
}

/// The texts of the tokens that render an expression: symbols and numbers
/// are one token, and a list wraps its elements' tokens in parentheses.
pub open spec fn render_tokens(v: Val) -> Seq<Seq<char>>
    decreases v,
{
    match v {
        Val::Symbol { name } => seq![name],
        Val::Number { value } => seq![int_str(value)],
        Val::List { items } => seq![seq!['(']] + items_tokens(items) + seq![seq![')']],
        _ => Seq::empty(),
    }
}

/// The concatenated token texts of a list's elements.
pub open spec fn items_tokens(items: Seq<Val>) -> Seq<Seq<char>>
    decreases items,
{
    if items.len() == 0 {
        Seq::empty()
    } else {
        render_tokens(items[0]) + items_tokens(items.skip(1))
    }
}

/// A symbol name that survives the trip through text: not empty, free of
/// blanks, parentheses, comment and string characters, not the
/// quote-prefix symbol, and not readable as a number.
pub open spec fn sym_ok(name: Seq<char>) -> bool {
    &&& name.len() > 0
    &&& forall|i: int|
        0 <= i < name.len() ==> !crate::token::is_blank(#[trigger] name[i])
            && !crate::token::is_paren(name[i]) && name[i] != ';' && name[i] != '"'
    &&& name != seq!['\'']
    &&& parse_int_spec(name) is None
}

/// A value built only from numbers, symbols and lists, whose symbols all
/// survive the trip through text.
pub open spec fn plain_val(v: Val) -> bool
    decreases v,
{
    match v {
        Val::Number { value } => i64::MIN <= value <= i64::MAX,
        Val::Symbol { name } => sym_ok(name),
        Val::List { items } => forall|i: int| 0 <= i < items.len() ==> plain_val(#[trigger] items[i]),
        _ => false,
    }
}

/// The texts of a token sequence.
pub open spec fn token_texts(toks: Seq<TokenModel>) -> Seq<Seq<char>> {
    Seq::new(toks.len(), |i: int| toks[i].text)
}

/// The character of a digit carries the digit's value, offset by the code
/// of the zero digit.
proof fn lemma_digit_char_val(d: nat)
    requires
        d < 10,
    ensures
        digit_char(d) as int == 48 + d,
{
    if d == 0 {
        assert('0' as int == 48);
    } else if d == 1 {
        assert('1' as int == 49);
    } else if d == 2 {
        assert('2' as int == 50);
    } else if d == 3 {
        assert('3' as int == 51);
    } else if d == 4 {
        assert('4' as int == 52);
    } else if d == 5 {
        assert('5' as int == 53);
    } else if d == 6 {
        assert('6' as int == 54);
    } else if d == 7 {
        assert('7' as int == 55);
    } else if d == 8 {
        assert('8' as int == 56);
    } else {
        assert('9' as int == 57);
    }
}

/// The decimal rendering of a natural number is all digits and reads back
/// as the same number.
proof fn lemma_dec_str_reads_back(m: nat)
    ensures
        dec_str(m).len() > 0,
        all_digits(dec_str(m)),
        digits_val(dec_str(m)) == m,
    decreases m,
{
    if m < 10 {
        lemma_digit_char_val(m);
        assert(dec_str(m) =~= seq![digit_char(m)]);
        assert(dec_str(m).drop_last() =~= Seq::<char>::empty());
        assert(digits_val(dec_str(m)) == digits_val(Seq::<char>::empty()) * 10 + (digit_char(
            m,
        ) as int - 48));
    } else {
        lemma_dec_str_reads_back(m / 10);
        lemma_digit_char_val(m % 10);
        assert(dec_str(m).drop_last() =~= dec_str(m / 10));
        assert(dec_str(m).last() == digit_char(m % 10));
        assert(digits_val(dec_str(m)) == digits_val(dec_str(m / 10)) * 10 + (digit_char(
            m % 10,
        ) as int - 48));
        assert(forall|i: int|
            0 <= i < dec_str(m).len() - 1 ==> #[trigger] dec_str(m)[i] == dec_str(m / 10)[i]);
    }
}

/// The decimal rendering of a 64-bit integer reads back as that integer.
proof fn lemma_int_str_reads_back(n: int)
    requires
        i64::MIN <= n <= i64::MAX,
    ensures
        parse_int_spec(int_str(n)) == Some(n),
        int_str(n).len() > 0,
        48 <= int_str(n)[0] as int <= 57 || int_str(n)[0] == '-',
    decreases
            if n < 0 {
                1int
            } else {
                0int
            },
{
    if n >= 0 {
        lemma_dec_str_reads_back(n as nat);
    } else {
        lemma_dec_str_reads_back((-n) as nat);
        let t = int_str(n);
        assert(t[0] == '-');
        assert(t.skip(1) =~= dec_str((-n) as nat));
        assert(('-' as int) < 48);
        assert(!all_digits(t));
        assert(t.len() > 1);
    }
}

/// The quote-prefix rewrite leaves a list alone when no element is the
/// quote-prefix symbol itself.
proof fn lemma_quote_rewrite_identity(items: Seq<Val>)
    requires
        forall|i: int| 0 <= i < items.len() ==> #[trigger] items[i] != (Val::Symbol {
            name: seq!['\''],
        }),
    ensures
        quote_rewrite(items) == Ok::<Seq<Val>, Fault>(items),
    decreases items.len(),
{
    if items.len() > 0 {
        assert(forall|i: int|
            0 <= i < items.skip(1).len() ==> #[trigger] items.skip(1)[i] == items[i + 1]);
        lemma_quote_rewrite_identity(items.skip(1));
        assert(seq![items[0]] + items.skip(1) =~= items);
        assert(quote_rewrite(items) == Ok::<Seq<Val>, Fault>(seq![items[0]] + items.skip(1)));
    } else {
        assert(items =~= Seq::<Val>::empty());
    }
}

/// A plain value's first token is never a close parenthesis, and is an
/// open parenthesis exactly when the value is a list.
proof fn lemma_first_token_shape(v: Val)
    requires
        plain_val(v),
    ensures
        render_tokens(v).len() > 0,
        render_tokens(v)[0] != seq![')'],
        v is List <==> render_tokens(v)[0] == seq!['('],
    decreases v,
{
    match v {
        Val::Symbol { name } => {
            assert(render_tokens(v) =~= seq![name]);
            assert(render_tokens(v)[0] == name);
            assert(name[0] != '(' && name[0] != ')');
            assert(name != seq!['(']) by {
                if name == seq!['('] {
                    assert(name[0] == '(');
                }
            }
            assert(name != seq![')']) by {
                if name == seq![')'] {
                    assert(name[0] == ')');
                }
            }
        },
        Val::Number { value } => {
            lemma_int_str_reads_back(value);
            let t = int_str(value);
            assert(render_tokens(v) =~= seq![t]);
            assert(render_tokens(v)[0] == t);
            assert(t != seq!['(']) by {
                if t == seq!['('] {
                    assert(48 <= '(' as int <= 57 || '(' as int == '-' as int);
                }
            }
            assert(t != seq![')']) by {
                if t == seq![')'] {
                    assert(48 <= ')' as int <= 57 || ')' as int == '-' as int);
                }
            }
        },
        Val::List { items } => {
            assert((seq![seq!['(']] + items_tokens(items) + seq![seq![')']])[0] == seq!['(']);
            assert(render_tokens(v)[0] == seq!['(']);
            assert(seq!['('][0] != seq![')'][0]);
        },
        _ => {},
    }
}

/// Parsing the rendered tokens of a plain value, embedded at position `i`
/// of a longer token stream, gives the value back and consumes exactly its
/// tokens.
proof fn lemma_parse_reads_back(v: Val, toks: Seq<TokenModel>, i: int)
    requires
        plain_val(v),
        0 <= i,
        i + render_tokens(v).len() as int <= toks.len(),
        forall|k: int|
            0 <= k < render_tokens(v).len() ==> toks[i + k].text == #[trigger] render_tokens(v)[k],
    ensures
        parse_spec(toks, i) == (Ok::<Val, Fault>(v), i + render_tokens(v).len() as int),
    decreases v, 0int,
{
    lemma_first_token_shape(v);
    assert(toks[i].text == render_tokens(v)[0]);
    match v {
        Val::Symbol { name } => {
            assert(atom_of_token(name) == v);
        },
        Val::Number { value } => {
            lemma_int_str_reads_back(value);
            assert(atom_of_token(int_str(value)) == v);
        },
        Val::List { items } => {
            let body = items_tokens(items);
            assert(render_tokens(v) =~= seq![seq!['(']] + body + seq![seq![')']]);
            assert(forall|k: int|
                0 <= k < body.len() ==> #[trigger] toks[i + 1 + k].text == body[k]) by {
                assert(forall|k: int|
                    0 <= k < body.len() ==> render_tokens(v)[k + 1] == #[trigger] body[k]);
            }
            assert(toks[i + 1 + body.len() as int].text == render_tokens(v)[body.len() as int + 1]);
            assert(toks[i + 1 + body.len() as int].text == seq![')']);
            lemma_parse_list_reads_back(items, toks, i + 1);
            assert(forall|k: int| 0 <= k < items.len() ==> #[trigger] items[k] != (Val::Symbol {
                name: seq!['\''],
            })) by {
                assert forall|k: int| 0 <= k < items.len() implies #[trigger] items[k]
                    != (Val::Symbol { name: seq!['\''] }) by {
                    if items[k] == (Val::Symbol { name: seq!['\''] }) {
                        assert(plain_val(items[k]));
                        assert(sym_ok(seq!['\'']));
                    }
                }
            }
            lemma_quote_rewrite_identity(items);
        },
        _ => {},
    }
}

/// The list half of [`lemma_parse_reads_back`]: parsing a sequence of
/// plain elements laid out before a close token collects exactly those
/// elements.
proof fn lemma_parse_list_reads_back(items: Seq<Val>, toks: Seq<TokenModel>, i: int)
    requires
        forall|k: int| 0 <= k < items.len() ==> plain_val(#[trigger] items[k]),
        0 <= i,
        i + items_tokens(items).len() as int + 1 <= toks.len(),
        forall|k: int|
            0 <= k < items_tokens(items).len() ==> toks[i + k].text == #[trigger] items_tokens(
                items,
            )[k],
        toks[i + items_tokens(items).len() as int].text == seq![')'],
    ensures
        parse_list_spec(toks, i) == (
            Ok::<Seq<Val>, Fault>(items),
            i + items_tokens(items).len() as int + 1,
        ),
    decreases items, 1int,
{
    if items.len() == 0 {
        assert(items_tokens(items).len() == 0);
        assert(toks[i].text == seq![')']);
        assert(parse_list_spec(toks, i) == (Ok::<Seq<Val>, Fault>(Seq::empty()), i + 1));
        assert(Seq::<Val>::empty() =~= items);
    } else {
        let head = items[0];
        let head_toks = render_tokens(head);
        let rest = items.skip(1);
        assert(items_tokens(items) =~= head_toks + items_tokens(rest));
        lemma_first_token_shape(head);
        assert(items_tokens(items)[0] == head_toks[0]);
        assert(toks[i + 0].text == items_tokens(items)[0]);
        assert(toks[i].text == head_toks[0]);
        assert(toks[i].text != seq![')']);
        assert(i < toks.len());
        assert forall|k: int|
            0 <= k < head_toks.len() implies toks[i + k].text == #[trigger] head_toks[k] by {
            assert(items_tokens(items)[k] == head_toks[k]);
            assert(toks[i + k].text == items_tokens(items)[k]);
        }
        lemma_parse_reads_back(head, toks, i);
        let j = i + head_toks.len() as int;
        assert(parse_spec(toks, i) == (Ok::<Val, Fault>(head), j));
        assert(forall|k: int|
            0 <= k < items_tokens(rest).len() ==> #[trigger] toks[j + k].text == items_tokens(
                rest,
            )[k]) by {
            assert(forall|k: int|
                0 <= k < items_tokens(rest).len() ==> items_tokens(items)[head_toks.len() as int + k]
                    == #[trigger] items_tokens(rest)[k]);
        }
        assert(toks[j + items_tokens(rest).len() as int].text == seq![')']);
        lemma_parse_list_reads_back(rest, toks, j);
        assert(seq![head] + rest =~= items);
    }
}

/// Parsing undoes rendering: a token stream carrying exactly the rendered
/// tokens of a plain value parses back to that value, consuming the whole
/// stream. Together with the quote-prefix rewrite being the identity on
/// such values, this is the round trip from a value through its text's
/// tokens and back.
pub proof fn law_parse_undoes_render(v: Val, toks: Seq<TokenModel>)
    requires
        plain_val(v),
        token_texts(toks) == render_tokens(v),
    ensures
        parse_spec(toks, 0) == (Ok::<Val, Fault>(v), toks.len() as int),
{
    assert(toks.len() == render_tokens(v).len());
    assert(forall|k: int|
        0 <= k < render_tokens(v).len() ==> #[trigger] toks[k].text == render_tokens(v)[k]) by {
        assert(forall|k: int|
            0 <= k < toks.len() ==> #[trigger] token_texts(toks)[k] == toks[k].text);
    }
    lemma_parse_reads_back(v, toks, 0);
}

/// A character of a symbol or number token: not a blank, a parenthesis, a
/// comment opener or a string opener.
spec fn plain_char(c: char) -> bool {
    !crate::token::is_blank(c) && !crate::token::is_paren(c) && c != ';' && c != '"'
}

/// A digit or a minus sign is a plain token character.
proof fn lemma_digit_chars_plain(c: char)
    requires
        48 <= c as int <= 57 || c as int == 45,
    ensures
        plain_char(c),
{
    assert(' ' as int == 32);
    assert('\t' as int == 9);
    assert('\n' as int == 10);
    assert('\r' as int == 13);
    assert('\u{b}' as int == 11);
    assert('\u{c}' as int == 12);
    assert('(' as int == 40);
    assert(')' as int == 41);
    assert(';' as int == 59);
    assert('"' as int == 34);
}

/// A plain token run over plain characters ends exactly at the first
/// boundary character.
proof fn lemma_run_end_through(s: Seq<char>, i: int, j: int)
    requires
        0 <= i <= j <= s.len(),
        forall|k: int| i <= k < j ==> plain_char(#[trigger] s[k]),
        j == s.len() || crate::token::is_blank(s[j]) || crate::token::is_paren(s[j]),
    ensures
        crate::token::run_end(s, i) == j,
    decreases j - i,
{
    if i < j {
        lemma_run_end_through(s, i + 1, j);
    }
}

/// Prepending one token to a stream prepends its text.
proof fn lemma_token_texts_cons(t: TokenModel, rest: Seq<TokenModel>)
    ensures
        token_texts(seq![t] + rest) =~= seq![t.text] + token_texts(rest),
{
    assert forall|k: int|
        0 <= k < rest.len() + 1 implies token_texts(seq![t] + rest)[k] == (seq![t.text]
        + token_texts(rest))[k] by {
        if k > 0 {
            assert((seq![t] + rest)[k] == rest[k - 1]);
        }
    }
}

/// Rendering a plain value never writes an empty text; a symbol or number
/// renders to plain characters throughout, and every rendering opens with
/// a plain character or a parenthesis.
proof fn lemma_render_chars_plain(v: Val)
    requires
        plain_val(v),
    ensures
        render_val(v).len() > 0,
        v is Symbol || v is Number ==> forall|k: int|
            0 <= k < render_val(v).len() ==> plain_char(#[trigger] render_val(v)[k]),
        plain_char(render_val(v)[0]) || render_val(v)[0] == '(',
{
    match v {
        Val::Symbol { name } => {
            assert(render_val(v) == name);
        },
        Val::Number { value } => {
            lemma_int_str_reads_back(value);
            let t = int_str(value);
            assert forall|k: int| 0 <= k < t.len() implies plain_char(#[trigger] t[k]) by {
                if value >= 0 {
                    lemma_dec_str_reads_back(value as nat);
                    lemma_digit_chars_plain(t[k]);
                } else {
                    lemma_dec_str_reads_back((-value) as nat);
                    if k == 0 {
                        assert(t[0] == '-');
                        assert('-' as int == 45);
                        lemma_digit_chars_plain(t[0]);
                    } else {
                        assert(t.skip(1) =~= dec_str((-value) as nat));
                        assert(t[k] == t.skip(1)[k - 1]);
                        lemma_digit_chars_plain(t[k]);
                    }
                }
            }
        },
        Val::List { items } => {
            let inner = crate::semantics::render_items(items);
            assert(render_val(v) =~= seq!['('] + inner + seq![')']);
            assert(render_val(v)[0] == '(');
        },
        _ => {},
    }
}

/// A blank character before a token never changes the token stream.
proof fn lemma_tokens_step_blank(s: Seq<char>, p: int)
    requires
        0 <= p < s.len(),
        crate::token::is_blank(s[p]),
    ensures
        crate::token::tokens_from(s, p) == crate::token::tokens_from(s, p + 1),
{
    assert(crate::token::skip_blank(s, p) == crate::token::skip_blank(s, p + 1));
}

/// Tokenizing a rendered plain value embedded in a longer text yields
/// exactly its rendered tokens and then the tokens of what follows, as
/// long as the value's text ends at a blank, a parenthesis or the end.
proof fn lemma_tokens_of_render(v: Val, s: Seq<char>, i: int)
    requires
        plain_val(v),
        0 <= i,
        i + render_val(v).len() <= s.len(),
        forall|k: int| 0 <= k < render_val(v).len() ==> s[i + k] == #[trigger] render_val(v)[k],
        ({
            let j = i + render_val(v).len();
            j == s.len() || crate::token::is_blank(s[j]) || crate::token::is_paren(s[j])
        }),
    ensures
        token_texts(crate::token::tokens_from(s, i)) =~= render_tokens(v) + token_texts(
            crate::token::tokens_from(s, i + render_val(v).len() as int),
        ),
    decreases v, 1int,
{
    broadcast use crate::semantics::view_axioms;

    lemma_render_chars_plain(v);
    let text = render_val(v);
    let j = i + text.len() as int;
    assert(s[i] == text[0]);
    match v {
        Val::Symbol { name } => {
            assert(text == name);
            assert(crate::token::skip_blank(s, i) == i);
            assert forall|k: int| i <= k < j implies plain_char(#[trigger] s[k]) by {
                assert(s[k] == text[k - i]);
            }
            lemma_run_end_through(s, i, j);
            assert(crate::token::token_text_at(s, i) =~= name);
            assert(crate::token::token_end_at(s, i) == j);
            let t = TokenModel { text: crate::token::token_text_at(s, i), pos: i };
            assert(crate::token::tokens_from(s, i) == seq![t] + crate::token::tokens_from(s, j));
            lemma_token_texts_cons(t, crate::token::tokens_from(s, j));
            assert(render_tokens(v) =~= seq![name]);
        },
        Val::Number { value } => {
            assert(text == int_str(value));
            assert(crate::token::skip_blank(s, i) == i);
            assert forall|k: int| i <= k < j implies plain_char(#[trigger] s[k]) by {
                assert(s[k] == text[k - i]);
            }
            lemma_run_end_through(s, i, j);
            assert(crate::token::token_text_at(s, i) =~= text);
            assert(crate::token::token_end_at(s, i) == j);
            let t = TokenModel { text: crate::token::token_text_at(s, i), pos: i };
            assert(crate::token::tokens_from(s, i) == seq![t] + crate::token::tokens_from(s, j));
            lemma_token_texts_cons(t, crate::token::tokens_from(s, j));
            assert(render_tokens(v) =~= seq![text]);
        },
        Val::List { items } => {
            let inner = crate::semantics::render_items(items);
            assert(text =~= seq!['('] + inner + seq![')']);
            assert(s[i] == '(');
            assert(crate::token::skip_blank(s, i) == i);
            assert(crate::token::token_text_at(s, i) =~= seq!['(']);
            assert(crate::token::token_end_at(s, i) == i + 1);
            let open = TokenModel { text: crate::token::token_text_at(s, i), pos: i };
            assert(crate::token::tokens_from(s, i) == seq![open] + crate::token::tokens_from(
                s,
                i + 1,
            ));
            lemma_token_texts_cons(open, crate::token::tokens_from(s, i + 1));
            assert forall|k: int| 0 <= k < inner.len() implies s[i + 1 + k] == #[trigger] inner[k]
                by {
                assert(text[k + 1] == inner[k]);
            }
            let close_at = i + 1 + inner.len() as int;
            assert(s[close_at] == text[close_at - i]);
            assert(text[close_at - i] == ')');
            lemma_tokens_of_render_items(items, s, i + 1);
            assert(crate::token::skip_blank(s, close_at) == close_at);
            assert(crate::token::token_text_at(s, close_at) =~= seq![')']);
            assert(crate::token::token_end_at(s, close_at) == j);
            let close = TokenModel {
                text: crate::token::token_text_at(s, close_at),
                pos: close_at,
            };
            assert(crate::token::tokens_from(s, close_at) == seq![close]
                + crate::token::tokens_from(s, j));
            lemma_token_texts_cons(close, crate::token::tokens_from(s, j));
            assert(render_tokens(v) =~= seq![seq!['(']] + items_tokens(items) + seq![seq![')']]);
            assert(token_texts(crate::token::tokens_from(s, i)) =~= seq![seq!['(']] + (
            items_tokens(items) + (seq![seq![')']] + token_texts(
                crate::token::tokens_from(s, j),
            ))));
            assert(render_tokens(v) + token_texts(crate::token::tokens_from(s, j)) =~= seq![
                seq!['('],
            ] + (items_tokens(items) + (seq![seq![')']] + token_texts(
                crate::token::tokens_from(s, j),
            ))));
        },
        _ => {},
    }
}

/// The element half of [`lemma_tokens_of_render`]: the space-separated
/// elements of a list, closed by a `)` just past them, tokenize to the
/// concatenation of their rendered tokens.
proof fn lemma_tokens_of_render_items(items: Seq<Val>, s: Seq<char>, i: int)
    requires
        forall|k: int| 0 <= k < items.len() ==> plain_val(#[trigger] items[k]),
        0 <= i,
        i + crate::semantics::render_items(items).len() < s.len(),
        forall|k: int|
            0 <= k < crate::semantics::render_items(items).len() ==> s[i + k]
                == #[trigger] crate::semantics::render_items(items)[k],
        s[i + crate::semantics::render_items(items).len() as int] == ')',
    ensures
        token_texts(crate::token::tokens_from(s, i)) =~= items_tokens(items) + token_texts(
            crate::token::tokens_from(s, i + crate::semantics::render_items(items).len() as int),
        ),
    decreases items, 0int,
{
    let inner = crate::semantics::render_items(items);
    let j = i + inner.len() as int;
    if items.len() == 0 {
        assert(items_tokens(items) =~= Seq::<Seq<char>>::empty());
        assert(Seq::<Seq<char>>::empty() + token_texts(crate::token::tokens_from(s, j))
            =~= token_texts(crate::token::tokens_from(s, j)));
    } else if items.len() == 1 {
        assert(inner =~= render_val(items[0]));
        lemma_tokens_of_render(items[0], s, i);
        assert(items_tokens(items) =~= render_tokens(items[0]) + items_tokens(items.skip(1)));
        assert(items_tokens(items.skip(1)) =~= Seq::<Seq<char>>::empty());
        assert(items_tokens(items) =~= render_tokens(items[0]));
    } else {
        let head = render_val(items[0]);
        let rest = crate::semantics::render_items(items.skip(1));
        assert(inner =~= head + seq![' '] + rest);
        assert forall|k: int| 0 <= k < head.len() implies s[i + k] == #[trigger] head[k] by {
            assert(inner[k] == head[k]);
        }
        let p = i + head.len() as int;
        assert(s[p] == inner[p - i]);
        assert(inner[p - i] == ' ');
        lemma_tokens_of_render(items[0], s, i);
        lemma_tokens_step_blank(s, p);
        assert(forall|k: int|
            0 <= k < items.skip(1).len() ==> plain_val(#[trigger] items.skip(1)[k]));
        assert forall|k: int| 0 <= k < rest.len() implies s[p + 1 + k] == #[trigger] rest[k] by {
            assert(inner[head.len() + 1 + k] == rest[k]);
        }
        assert(s[p + 1 + rest.len() as int] == ')');
        lemma_tokens_of_render_items(items.skip(1), s, p + 1);
        assert(items_tokens(items) =~= render_tokens(items[0]) + items_tokens(items.skip(1)));
        assert(token_texts(crate::token::tokens_from(s, i)) =~= render_tokens(items[0]) + (
        items_tokens(items.skip(1)) + token_texts(crate::token::tokens_from(s, j))));
        assert(items_tokens(items) + token_texts(crate::token::tokens_from(s, j)) =~= render_tokens(
            items[0],
        ) + (items_tokens(items.skip(1)) + token_texts(crate::token::tokens_from(s, j))));
    }
}

/// The whole pipeline on a rendered number: evaluating its decimal text
/// tokenizes it, parses it back, and returns the number itself, leaving
/// any environment as it stands.
pub proof fn law_evaluate_reads_numbers_back(n: int, env: EnvModel)
    requires
        i64::MIN <= n <= i64::MAX,
    ensures
        crate::semantics::evaluate_spec(int_str(n), env) == step_ok(Val::Number { value: n }, env),
{
    let v = Val::Number { value: n };
    law_render_then_parse_is_identity(v);
    assert(render_val(v) == int_str(n));
    assert(crate::EVAL_FUEL as nat >= 1);
}

/// The whole round trip: tokenizing the rendered text of a plain value
/// yields exactly its rendered tokens, and parsing those gives the value
/// back, consuming the whole stream.
pub proof fn law_render_then_parse_is_identity(v: Val)
    requires
        plain_val(v),
    ensures
        ({
            let toks = crate::token::tokens_from(render_val(v), 0);
            &&& token_texts(toks) == render_tokens(v)
            &&& parse_spec(toks, 0) == (Ok::<Val, Fault>(v), toks.len() as int)
        }),
{
    let s = render_val(v);
    let toks = crate::token::tokens_from(s, 0);
    lemma_tokens_of_render(v, s, 0);
    assert(crate::token::skip_blank(s, s.len() as int) == s.len());
    assert(crate::token::tokens_from(s, s.len() as int) =~= Seq::<TokenModel>::empty());
    assert(token_texts(Seq::<TokenModel>::empty()) =~= Seq::<Seq<char>>::empty());
    assert(render_tokens(v) + Seq::<Seq<char>>::empty() =~= render_tokens(v));
    assert(token_texts(toks) =~= render_tokens(v));
    law_parse_undoes_render(v, toks);
}

} // verus!
