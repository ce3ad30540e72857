//! Rendering an error as text, with the arguments around it and carets under the span.

use vstd::prelude::*;
use vstd::string::StrSliceExecFns;

use crate::err::{kind_text, ArgErrCtx};
use crate::text::{byte_len, decimal, owned, push_char, push_decimal, push_str};
use crate::utf8::{char_width, utf8_width};

verus! {

/// Total width of a rendered error.
pub const MAX_WIDTH: usize = 80;

/// Width available to the arguments shown around the error: the total
/// without the gutter.
pub const WIDTH: usize = MAX_WIDTH - 11;

/// Escape sequence `ESC [ n m` for the graphic mode `n`.
pub open spec fn sgr(n: Seq<char>) -> Seq<char> {
    seq!['\x1b', '['] + n + seq!['m']
}

/// Relies on `termal::codes::RESET`: the sequence that resets all styles.
#[verifier::external_body]
fn code_reset() -> (r: &'static str)
    ensures
        r@ == sgr(seq!['0']),
{
    termal::codes::RESET
}

/// Relies on `termal::codes::BOLD`.
#[verifier::external_body]
fn code_bold() -> (r: &'static str)
    ensures
        r@ == sgr(seq!['1']),
{
    termal::codes::BOLD
}

/// Relies on `termal::codes::GRAY_FG`.
#[verifier::external_body]
fn code_gray() -> (r: &'static str)
    ensures
        r@ == sgr(seq!['9', '0']),
{
    termal::codes::GRAY_FG
}

/// Relies on `termal::codes::RED_FG`.
#[verifier::external_body]
fn code_red() -> (r: &'static str)
    ensures
        r@ == sgr(seq!['9', '1']),
{
    termal::codes::RED_FG
}

/// Relies on `termal::codes::BLUE_FG`.
#[verifier::external_body]
fn code_blue() -> (r: &'static str)
    ensures
        r@ == sgr(seq!['9', '4']),
{
    termal::codes::BLUE_FG
}

/// Relies on `termal::codes::CYAN_FG`.
#[verifier::external_body]
fn code_cyan() -> (r: &'static str)
    ensures
        r@ == sgr(seq!['9', '6']),
{
    termal::codes::CYAN_FG
}

pub open spec fn reset(color: bool) -> Seq<char> {
    if color { sgr(seq!['0']) } else { Seq::empty() }
}

pub open spec fn bold(color: bool) -> Seq<char> {
    if color { sgr(seq!['1']) } else { Seq::empty() }
}

pub open spec fn gray(color: bool) -> Seq<char> {
    if color { sgr(seq!['9', '0']) } else { Seq::empty() }
}

pub open spec fn red(color: bool) -> Seq<char> {
    if color { sgr(seq!['9', '1']) } else { Seq::empty() }
}

pub open spec fn blue(color: bool) -> Seq<char> {
    if color { sgr(seq!['9', '4']) } else { Seq::empty() }
}

pub open spec fn cyan(color: bool) -> Seq<char> {
    if color { sgr(seq!['9', '6']) } else { Seq::empty() }
}

/// Appends a style sequence when `color` is on.
fn push_style(s: &mut String, color: bool, code: &str)
    ensures
        final(s)@ == old(s)@ + if color { code@ } else { Seq::empty() },
{
    if color {
        push_str(s, code);
    } else {
        assert(old(s)@ + Seq::<char>::empty() =~= old(s)@);
    }
}

/// `n` copies of `c`.
pub open spec fn repeat(c: char, n: nat) -> Seq<char> {
    Seq::new(n, |_i: int| c)
}

fn push_repeat(s: &mut String, c: char, n: usize)
    ensures
        final(s)@ == old(s)@ + repeat(c, n as nat),
{
    let mut i: usize = 0;
    while i < n
        invariant
            i <= n,
            s@ == old(s)@ + repeat(c, i as nat),
        decreases n - i,
    {
        push_char(s, c);
        i = i + 1;
        assert(s@ =~= old(s)@ + repeat(c, i as nat));
    }
}

/// How many of the first characters of `s` lie wholly within its first `b` bytes.
pub open spec fn chars_within(s: Seq<char>, b: int) -> nat
    decreases s.len(),
{
    if s.len() > 0 && utf8_width(s[0]) <= b {
        1 + chars_within(s.drop_first(), b - utf8_width(s[0]))
    } else {
        0
    }
}

/// How many of the first characters of `s` lie wholly within its first `b` bytes.
fn count_chars_within(s: &str, b: usize) -> (r: usize)
    ensures
        r == chars_within(s@, b as int),
{
    let n = s.unicode_len();
    let mut i: usize = 0;
    let mut left = b;
    assert(s@.skip(0) =~= s@);
    while i < n
        invariant
            n == s@.len(),
            i <= n,
            left <= b,
            chars_within(s@, b as int) == i + chars_within(s@.skip(i as int), left as int),
        decreases n - i,
    {
        let c = s.get_char(i);
        let w = char_width(c);
        proof {
            assert(s@.skip(i as int)[0] == c);
            assert(s@.skip(i as int).drop_first() =~= s@.skip(i + 1));
        }
        if w > left {
            return i;
        }
        left = left - w;
        i = i + 1;
    }
    proof {
        assert(s@.skip(n as int).len() == 0);
    }
    i
}

/// The window of arguments shown around `err`: starting from `s..=e` with
/// total width `w`, it grows one argument to the left, then one to the right,
/// and so on, and stops as soon as an argument does not fit in `WIDTH`.
pub open spec fn grow(lens: Seq<nat>, s: int, e: int, w: int) -> (int, int)
    decreases s + lens.len() - e,
{
    if s < 0 || e >= lens.len() || s > e {
        (s, e)
    } else if s > 0 && w + lens[s - 1] + 1 > WIDTH {
        (s, e)
    } else {
        let s1 = if s > 0 { s - 1 } else { s };
        let w1 = if s > 0 { w + lens[s - 1] + 1 } else { w };
        if e + 1 < lens.len() {
            if w1 + lens[e + 1] + 1 > WIDTH {
                (s1, e)
            } else {
                grow(lens, s1, e + 1, w1 + lens[e + 1] + 1)
            }
        } else if s == 0 {
            (s1, e)
        } else {
            grow(lens, s1, e, w1)
        }
    }
}

/// Character counts of the arguments.
pub open spec fn arg_lens(args: Seq<String>) -> Seq<nat> {
    Seq::new(args.len(), |i: int| args[i]@.len())
}

/// The index of the erroneous argument, limited to the arguments.
pub open spec fn clamped_idx(ctx: ArgErrCtx) -> int {
    if ctx.error_idx < ctx.args@.len() {
        ctx.error_idx as int
    } else {
        ctx.args@.len() - 1
    }
}

/// The shown window of `ctx`'s arguments.
pub open spec fn window(ctx: ArgErrCtx) -> (int, int) {
    let i = clamped_idx(ctx);
    let lens = arg_lens(ctx.args@);
    grow(lens, i, i, lens[i] as int)
}

/// The arguments `s..e` each followed by a space.
pub open spec fn joined_before(args: Seq<String>, s: int, e: int) -> Seq<char>
    decreases e - s,
{
    if s >= e {
        Seq::empty()
    } else {
        joined_before(args, s, e - 1) + args[e - 1]@ + seq![' ']
    }
}

/// The arguments `s..e` each preceded by a space.
pub open spec fn joined_after(args: Seq<String>, s: int, e: int) -> Seq<char>
    decreases e - s,
{
    if s >= e {
        Seq::empty()
    } else {
        joined_after(args, s, e - 1) + seq![' '] + args[e - 1]@
    }
}

/// The message at the top: the long message, else the inline one, else the
/// kind's text.
pub open spec fn long_text(ctx: ArgErrCtx) -> Seq<char> {
    match ctx.long_msg {
        Some(m) => m@,
        None => match ctx.inline_msg {
            Some(m) => m@,
            None => kind_text(ctx.kind),
        },
    }
}

/// The message next to the carets: the inline message, else the kind's text.
pub open spec fn inline_text(ctx: ArgErrCtx) -> Seq<char> {
    match ctx.inline_msg {
        Some(m) => m@,
        None => kind_text(ctx.kind),
    }
}

pub open spec fn hint_line(ctx: ArgErrCtx, color: bool) -> Seq<char> {
    match ctx.hint {
        Some(h) => cyan(color) + "hint:"@ + reset(color) + seq![' '] + h@ + seq!['\n'],
        None => Seq::empty(),
    }
}

/// The column, counted from the `|` of the caret line, at which the carets
/// start: the widths of the shown arguments before the erroneous one, each
/// with its space, and the characters before the span in the erroneous one.
pub open spec fn caret_offset(ctx: ArgErrCtx) -> int {
    let (s, e) = window(ctx);
    let i = clamped_idx(ctx);
    (if s == 0 { 1int } else { 5int }) + joined_before(ctx.args@, s, i).len() + chars_within(
        ctx.args@[i]@,
        ctx.error_span.start as int,
    )
}

pub open spec fn headline(ctx: ArgErrCtx, color: bool, label: Seq<char>) -> Seq<char> {
    (if ctx.anounce {
        red(color) + label + reset(color) + bold(color) + seq![' '] + long_text(ctx) + reset(color)
    } else {
        bold(color) + long_text(ctx) + reset(color)
    }) + seq!['\n']
}

/// The `-->` line and the empty gutter line under it.
pub open spec fn location_lines(ctx: ArgErrCtx, color: bool) -> Seq<char> {
    blue(color) + "--> "@ + reset(color) + "arg"@ + decimal(clamped_idx(ctx) as nat) + seq![':'] + decimal(
        ctx.error_span.start as nat,
    ) + ".."@ + decimal(ctx.error_span.end as nat) + seq!['\n'] + blue(color) + " |"@ + reset(color) + seq!['\n']
}

pub open spec fn window_prefix(s: int, color: bool) -> Seq<char> {
    if s == 0 {
        seq![' '] + blue(color) + seq!['$'] + reset(color) + seq![' ']
    } else {
        seq![' '] + blue(color) + "$ "@ + gray(color) + "..."@ + reset(color) + seq![' ']
    }
}

pub open spec fn window_suffix(e: int, n: int, color: bool) -> Seq<char> {
    if e != n - 1 {
        seq![' '] + gray(color) + "..."@ + reset(color) + seq!['\n']
    } else {
        seq!['\n']
    }
}

pub open spec fn window_body(args: Seq<String>, s: int, i: int, e: int) -> Seq<char> {
    joined_before(args, s, i) + args[i]@ + joined_after(args, i + 1, e + 1)
}

/// The line with the shown arguments.
pub open spec fn window_line(ctx: ArgErrCtx, color: bool) -> Seq<char> {
    let w = window(ctx);
    window_prefix(w.0, color) + window_body(ctx.args@, w.0, clamped_idx(ctx), w.1) + window_suffix(
        w.1,
        ctx.args@.len() as int,
        color,
    )
}

/// The number of carets: the length of the span, at least one.
pub open spec fn caret_count(ctx: ArgErrCtx) -> nat {
    if ctx.error_span.end > ctx.error_span.start {
        (ctx.error_span.end - ctx.error_span.start) as nat
    } else {
        1
    }
}

/// The line that marks the span with carets.
pub open spec fn caret_line(ctx: ArgErrCtx, color: bool) -> Seq<char> {
    seq![' '] + blue(color) + seq!['|'] + repeat(' ', crate::reader::sat(caret_offset(ctx)) as nat) + red(color) + repeat(
        '^',
        caret_count(ctx),
    ) + seq![' '] + inline_text(ctx) + reset(color) + seq!['\n']
}

/// The rendered error.
pub open spec fn render_text(ctx: ArgErrCtx, color: bool) -> Seq<char> {
    if ctx.args@.len() == 0 {
        headline(ctx, color, "error:"@) + hint_line(ctx, color)
    } else {
        headline(ctx, color, "argument error:"@) + location_lines(ctx, color) + window_line(ctx, color)
            + caret_line(ctx, color) + hint_line(ctx, color)
    }
}

/// Width of the arguments `s..=e` joined by single spaces.
pub open spec fn window_width(lens: Seq<nat>, s: int, e: int) -> int
    decreases e - s,
{
    if e <= s {
        lens[s] as int
    } else {
        window_width(lens, s, e - 1) + lens[e] + 1
    }
}

/// Widths of the arguments `s..e`, each with the space after it.
pub open spec fn width_before(lens: Seq<nat>, s: int, e: int) -> int
    decreases e - s,
{
    if e <= s {
        0
    } else {
        width_before(lens, s, e - 1) + lens[e - 1] + 1
    }
}

proof fn lemma_window_width_left(lens: Seq<nat>, s: int, e: int)
    requires
        0 < s <= e,
    ensures
        window_width(lens, s - 1, e) == window_width(lens, s, e) + lens[s - 1] + 1,
    decreases e - s,
{
    if e > s {
        lemma_window_width_left(lens, s, e - 1);
    } else {
        reveal_with_fuel(window_width, 2);
    }
}

/// The window stops growing only at the ends of the arguments, or where the
/// next argument on a side where it stopped would not fit.
proof fn lemma_grow(lens: Seq<nat>, s: int, e: int, w: int)
    requires
        0 <= s <= e < lens.len(),
        w == window_width(lens, s, e),
    ensures
        ({
            let (s2, e2) = grow(lens, s, e, w);
            &&& 0 <= s2 <= s
            &&& e <= e2 < lens.len()
            &&& (s2 == 0 && e2 == lens.len() - 1) || (s2 > 0 && window_width(lens, s2, e2) + lens[s2 - 1] + 1
                > WIDTH) || (e2 < lens.len() - 1 && window_width(lens, s2, e2) + lens[e2 + 1] + 1 > WIDTH)
        }),
    decreases s + lens.len() - e,
{
    if s > 0 && w + lens[s - 1] + 1 > WIDTH {
    } else {
        let s1 = if s > 0 { s - 1 } else { s };
        let w1 = if s > 0 { w + lens[s - 1] + 1 } else { w };
        if s > 0 {
            lemma_window_width_left(lens, s, e);
        }
        if e + 1 < lens.len() {
            if w1 + lens[e + 1] + 1 > WIDTH {
            } else {
                lemma_grow(lens, s1, e + 1, w1 + lens[e + 1] + 1);
            }
        } else if s == 0 {
        } else {
            lemma_grow(lens, s1, e, w1);
        }
    }
}

proof fn lemma_joined_before_len(args: Seq<String>, s: int, e: int)
    requires
        0 <= s <= e <= args.len(),
    ensures
        joined_before(args, s, e).len() == width_before(arg_lens(args), s, e),
    decreases e - s,
{
    if e > s {
        lemma_joined_before_len(args, s, e - 1);
    }
}

/// The rendered window around the erroneous argument: it holds that argument,
/// it is cut only where the next argument on that side would not fit in
/// `WIDTH`, a cut side shows `...`, and the carets start after the widths of
/// the shown arguments before the erroneous one and the characters before the
/// span in it.
pub proof fn lemma_window_and_carets(ctx: ArgErrCtx)
    requires
        ctx.args@.len() > 0,
    ensures
        ({
            let (s, e) = window(ctx);
            let i = clamped_idx(ctx);
            let n = ctx.args@.len() as int;
            let lens = arg_lens(ctx.args@);
            &&& 0 <= s <= i <= e < n
            &&& (s == 0 && e == n - 1) || (s > 0 && window_width(lens, s, e) + lens[s - 1] + 1 > WIDTH) || (e < n
                - 1 && window_width(lens, s, e) + lens[e + 1] + 1 > WIDTH)
            &&& window_prefix(s, false) == if s == 0 { " $ "@ } else { " $ ... "@ }
            &&& window_suffix(e, n, false) == if e != n - 1 { " ...\n"@ } else { "\n"@ }
            &&& caret_line(ctx, false) == " |"@ + repeat(' ', crate::reader::sat(caret_offset(ctx)) as nat) + repeat('^', caret_count(ctx))
                + seq![' '] + inline_text(ctx) + seq!['\n']
            &&& caret_offset(ctx) == (if s == 0 { 1int } else { 5int }) + width_before(lens, s, i) + chars_within(
                ctx.args@[i]@,
                ctx.error_span.start as int,
            )
        }),
{
    reveal_strlit(" $ ");
    reveal_strlit(" $ ... ");
    reveal_strlit("$ ");
    reveal_strlit("...");
    reveal_strlit(" ...\n");
    reveal_strlit("\n");
    reveal_strlit(" |");
    let i = clamped_idx(ctx);
    let lens = arg_lens(ctx.args@);
    lemma_grow(lens, i, i, lens[i] as int);
    let (s, e) = window(ctx);
    lemma_joined_before_len(ctx.args@, s, i);
    assert(window_prefix(s, false) =~= if s == 0 { " $ "@ } else { " $ ... "@ });
    assert(window_suffix(e, ctx.args@.len() as int, false) =~= if e != ctx.args@.len() - 1 { " ...\n"@ } else { "\n"@ });
    assert(caret_line(ctx, false) =~= " |"@ + repeat(' ', crate::reader::sat(caret_offset(ctx)) as nat) + repeat('^', caret_count(ctx))
        + seq![' '] + inline_text(ctx) + seq!['\n']);
}

/// Rendering depends on the record and the choice of color alone: two
/// renderings of the same record are the same text.
pub proof fn lemma_render_deterministic(ctx: ArgErrCtx, color: bool, first: Seq<char>, second: Seq<char>)
    requires
        first == render_text(ctx, color),
        second == render_text(ctx, color),
    ensures
        first == second,
{
}

/// Finds the window of shown arguments; see [`grow`].
fn find_window(args: &Vec<String>, i: usize) -> (r: (usize, usize))
    requires
        i < args@.len(),
    ensures
        r.0 as int == grow(arg_lens(args@), i as int, i as int, args@[i as int]@.len() as int).0,
        r.1 as int == grow(arg_lens(args@), i as int, i as int, args@[i as int]@.len() as int).1,
        r.0 <= i <= r.1 < args@.len(),
{
    let ghost lens = arg_lens(args@);
    assert(lens[i as int] == args@[i as int]@.len());
    let n = args.len();
    let mut s = i;
    let mut e = i;
    let mut w: usize = args[i].as_str().unicode_len();
    loop
        invariant
            n == args@.len(),
            s <= i <= e < n,
            lens == arg_lens(args@),
            grow(lens, s as int, e as int, w as int) == grow(lens, i as int, i as int, lens[i as int] as int),
        decreases s + n - e,
    {
        let s0 = s;
        let mut w1 = w;
        if s0 > 0 {
            let l = args[s0 - 1].as_str().unicode_len();
            assert(lens[s0 - 1] == l);
            if w > WIDTH || l >= WIDTH - w {
                return (s, e);
            }
            w1 = w + l + 1;
        }
        let s1 = if s0 > 0 { s0 - 1 } else { s0 };
        if e + 1 < n {
            let l = args[e + 1].as_str().unicode_len();
            assert(lens[e + 1] == l);
            if w1 > WIDTH || l >= WIDTH - w1 {
                return (s1, e);
            }
            s = s1;
            w = w1 + l + 1;
            e = e + 1;
        } else if s0 == 0 {
            return (s1, e);
        } else {
            s = s1;
            w = w1;
        }
    }
}

fn push_long_text(out: &mut String, ctx: &ArgErrCtx)
    ensures
        final(out)@ == old(out)@ + long_text(*ctx),
{
    match &ctx.long_msg {
        Some(m) => push_str(out, m.as_str()),
        None => match &ctx.inline_msg {
            Some(m) => push_str(out, m.as_str()),
            None => {
                let k = ctx.kind.message();
                push_str(out, k.as_str());
            },
        },
    }
}

fn push_inline_text(out: &mut String, ctx: &ArgErrCtx)
    ensures
        final(out)@ == old(out)@ + inline_text(*ctx),
{
    match &ctx.inline_msg {
        Some(m) => push_str(out, m.as_str()),
        None => {
            let k = ctx.kind.message();
            push_str(out, k.as_str());
        },
    }
}

fn push_hint_line(out: &mut String, ctx: &ArgErrCtx, color: bool)
    ensures
        final(out)@ == old(out)@ + hint_line(*ctx, color),
{
    match &ctx.hint {
        Some(h) => {
            let ghost o = out@;
            push_style(out, color, code_cyan());
            push_str(out, "hint:");
            push_style(out, color, code_reset());
            push_char(out, ' ');
            push_str(out, h.as_str());
            push_char(out, '\n');
            assert(out@ =~= o + hint_line(*ctx, color));
        },
        None => {
            assert(out@ =~= old(out)@ + hint_line(*ctx, color));
        },
    }
}

fn push_headline(out: &mut String, ctx: &ArgErrCtx, color: bool, label: &str)
    ensures
        final(out)@ == old(out)@ + headline(*ctx, color, label@),
{
    let ghost o = out@;
    if ctx.anounce {
        push_style(out, color, code_red());
        push_str(out, label);
        push_style(out, color, code_reset());
        push_style(out, color, code_bold());
        push_char(out, ' ');
    } else {
        push_style(out, color, code_bold());
    }
    push_long_text(out, ctx);
    push_style(out, color, code_reset());
    push_char(out, '\n');
    assert(out@ =~= o + headline(*ctx, color, label@));
}

fn push_joined_before(out: &mut String, args: &Vec<String>, s: usize, e: usize)
    requires
        s <= e <= args@.len(),
    ensures
        final(out)@ == old(out)@ + joined_before(args@, s as int, e as int),
{
    let mut k = s;
    while k < e
        invariant
            s <= k <= e <= args@.len(),
            out@ == old(out)@ + joined_before(args@, s as int, k as int),
        decreases e - k,
    {
        push_str(out, args[k].as_str());
        push_char(out, ' ');
        k = k + 1;
        assert(out@ =~= old(out)@ + joined_before(args@, s as int, k as int));
    }
}

fn push_joined_after(out: &mut String, args: &Vec<String>, s: usize, e: usize)
    requires
        s <= e <= args@.len(),
    ensures
        final(out)@ == old(out)@ + joined_after(args@, s as int, e as int),
{
    let mut k = s;
    while k < e
        invariant
            s <= k <= e <= args@.len(),
            out@ == old(out)@ + joined_after(args@, s as int, k as int),
        decreases e - k,
    {
        push_char(out, ' ');
        push_str(out, args[k].as_str());
        k = k + 1;
        assert(out@ =~= old(out)@ + joined_after(args@, s as int, k as int));
    }
}

fn joined_before_len(args: &Vec<String>, s: usize, e: usize) -> (r: usize)
    requires
        s <= e <= args@.len(),
    ensures
        r == crate::reader::sat(joined_before(args@, s as int, e as int).len() as int),
{
    let mut k = s;
    let mut n: usize = 0;
    while k < e
        invariant
            s <= k <= e <= args@.len(),
            n == crate::reader::sat(joined_before(args@, s as int, k as int).len() as int),
        decreases e - k,
    {
        let l = args[k].as_str().unicode_len();
        n = sat_add(sat_add(n, l), 1);
        k = k + 1;
    }
    n
}

/// `a + b`, or the greatest `usize` if that is more.
fn sat_add(a: usize, b: usize) -> (r: usize)
    ensures
        r == crate::reader::sat(a + b),
{
    if a <= usize::MAX - b {
        a + b
    } else {
        usize::MAX
    }
}

proof fn lemma_joined_before_grows(args: Seq<String>, s: int, k: int, e: int)
    requires
        s <= k <= e,
    ensures
        joined_before(args, s, k).len() <= joined_before(args, s, e).len(),
    decreases e - k,
{
    if k < e {
        lemma_joined_before_grows(args, s, k, e - 1);
    }
}

fn push_location_lines(out: &mut String, ctx: &ArgErrCtx, color: bool, i: usize)
    requires
        ctx.args@.len() > 0,
        i == clamped_idx(*ctx),
    ensures
        final(out)@ == old(out)@ + location_lines(*ctx, color),
{
    let ghost o = out@;
    push_style(out, color, code_blue());
    push_str(out, "--> ");
    push_style(out, color, code_reset());
    push_str(out, "arg");
    push_decimal(out, i as u128);
    push_char(out, ':');
    push_decimal(out, ctx.error_span.start as u128);
    push_str(out, "..");
    push_decimal(out, ctx.error_span.end as u128);
    push_char(out, '\n');
    push_style(out, color, code_blue());
    push_str(out, " |");
    push_style(out, color, code_reset());
    push_char(out, '\n');
    assert(out@ =~= o + location_lines(*ctx, color));
}

fn push_window_prefix(out: &mut String, s: usize, color: bool)
    ensures
        final(out)@ == old(out)@ + window_prefix(s as int, color),
{
    let ghost o = out@;
    push_char(out, ' ');
    push_style(out, color, code_blue());
    if s == 0 {
        push_char(out, '$');
        push_style(out, color, code_reset());
        push_char(out, ' ');
    } else {
        push_str(out, "$ ");
        push_style(out, color, code_gray());
        push_str(out, "...");
        push_style(out, color, code_reset());
        push_char(out, ' ');
    }
    assert(out@ =~= o + window_prefix(s as int, color));
}

fn push_window_suffix(out: &mut String, e: usize, n: usize, color: bool)
    ensures
        final(out)@ == old(out)@ + window_suffix(e as int, n as int, color),
{
    let ghost o = out@;
    if n == 0 || e != n - 1 {
        push_char(out, ' ');
        push_style(out, color, code_gray());
        push_str(out, "...");
        push_style(out, color, code_reset());
    }
    push_char(out, '\n');
    assert(out@ =~= o + window_suffix(e as int, n as int, color));
}

fn push_window_body(out: &mut String, args: &Vec<String>, s: usize, i: usize, e: usize)
    requires
        s <= i <= e < args@.len(),
    ensures
        final(out)@ == old(out)@ + window_body(args@, s as int, i as int, e as int),
{
    let ghost o = out@;
    // A length is a `usize`; asking for it records that bound.
    let _n = args.len();
    push_joined_before(out, args, s, i);
    push_str(out, args[i].as_str());
    push_joined_after(out, args, i + 1, e + 1);
    assert(out@ =~= o + window_body(args@, s as int, i as int, e as int));
}

fn push_window_line(out: &mut String, ctx: &ArgErrCtx, color: bool, i: usize, s: usize, e: usize)
    requires
        ctx.args@.len() > 0,
        i == clamped_idx(*ctx),
        (s as int, e as int) == window(*ctx),
        s <= i <= e < ctx.args@.len(),
    ensures
        final(out)@ == old(out)@ + window_line(*ctx, color),
{
    let ghost o = out@;
    push_window_prefix(out, s, color);
    push_window_body(out, &ctx.args, s, i, e);
    push_window_suffix(out, e, ctx.args.len(), color);
    assert(out@ =~= o + window_line(*ctx, color));
}

fn push_caret_line(out: &mut String, ctx: &ArgErrCtx, color: bool, offset: usize)
    requires
        offset == crate::reader::sat(caret_offset(*ctx)),
    ensures
        final(out)@ == old(out)@ + caret_line(*ctx, color),
{
    let ghost o = out@;
    let count = if ctx.error_span.end > ctx.error_span.start {
        ctx.error_span.end - ctx.error_span.start
    } else {
        1
    };
    push_char(out, ' ');
    push_style(out, color, code_blue());
    push_char(out, '|');
    push_repeat(out, ' ', offset);
    push_style(out, color, code_red());
    push_repeat(out, '^', count);
    push_char(out, ' ');
    push_inline_text(out, ctx);
    push_style(out, color, code_reset());
    push_char(out, '\n');
    assert(out@ =~= o + caret_line(*ctx, color));
}

impl ArgErrCtx {
    /// Renders the error as text, with ANSI styles when `color` is on.
    pub fn render(&self, color: bool) -> (r: String)
        ensures
            r@ == render_text(*self, color),
    {
        let mut out = String::new();
        if self.args.len() == 0 {
            push_headline(&mut out, self, color, "error:");
            push_hint_line(&mut out, self, color);
            assert(out@ =~= render_text(*self, color));
            return out;
        }
        let n = self.args.len();
        let i = if self.error_idx < n { self.error_idx } else { n - 1 };
        let (s, e) = find_window(&self.args, i);
        proof {
            lemma_joined_before_grows(self.args@, s as int, s as int, i as int);
        }
        let lead: usize = if s == 0 { 1 } else { 5 };
        let offset = sat_add(
            sat_add(lead, joined_before_len(&self.args, s, i)),
            count_chars_within(self.args[i].as_str(), self.error_span.start),
        );
        push_headline(&mut out, self, color, "argument error:");
        push_location_lines(&mut out, self, color, i);
        push_window_line(&mut out, self, color, i, s, e);
        push_caret_line(&mut out, self, color, offset);
        push_hint_line(&mut out, self, color);
        assert(out@ =~= render_text(*self, color));
        out
    }
}

} // verus!