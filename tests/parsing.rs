use pareg::check::{CheckRef, InRange, InRangeI, RangeBound};
use pareg::cursor::Pareg;
use pareg::decode::FloatText;
use pareg::err::{ArgErrCtx, ArgErrKind, ArgError, Span};
use pareg::fmt::ReadFmt;
use pareg::from_arg::FromArg;
use pareg::parsef::{parsef, parsef_part, ParseFArg, Value};
use pareg::parsers::{arg_list, bool_arg, key_mval_arg, key_val_arg, opt_bool_arg, split_arg};
use pareg::reader::Reader;

#[derive(PartialEq, Debug)]
enum ColorMode {
    Always,
    Never,
    Auto,
}

impl FromArg for ColorMode {
    fn from_arg(arg: &str) -> Result<Self, ArgError> {
        match arg.to_lowercase().as_str() {
            "always" => Ok(ColorMode::Always),
            "never" => Ok(ColorMode::Never),
            "auto" => Ok(ColorMode::Auto),
            _ => Err(ArgError::failed_to_parse("Unknown color mode.".to_string(), arg.to_string())),
        }
    }
}

fn to_f64(f: &FloatText) -> f64 {
    let v: f64 = minimal_lexical::parse_float(
        f.int_digits.as_bytes().iter(),
        f.frac_digits.as_bytes().iter(),
        f.exp,
    );
    if f.negative {
        -v
    } else {
        v
    }
}

fn slot(v: Value, fmt: &str) -> ParseFArg {
    ParseFArg::Arg(v, ReadFmt::new(fmt))
}

fn lit(s: &str) -> ParseFArg {
    ParseFArg::Str(s.to_string())
}

fn u8_at(args: &[ParseFArg], i: usize) -> u8 {
    match &args[i] {
        ParseFArg::Arg(Value::U8(v), _) => *v,
        ParseFArg::Ranged(Value::U8(v), _, _) => *v,
        _ => panic!("not a u8 slot"),
    }
}

fn u32_at(args: &[ParseFArg], i: usize) -> u32 {
    match &args[i] {
        ParseFArg::Arg(Value::U32(v), _) => *v,
        _ => panic!("not a u32 slot"),
    }
}

fn str_at(args: &[ParseFArg], i: usize) -> String {
    match &args[i] {
        ParseFArg::Arg(Value::Str(v), _) => v.clone(),
        _ => panic!("not a string slot"),
    }
}

fn float_at(args: &[ParseFArg], i: usize) -> f64 {
    match &args[i] {
        ParseFArg::Arg(Value::Float(v), _) => to_f64(v),
        _ => panic!("not a float slot"),
    }
}

fn address_pattern() -> Vec<ParseFArg> {
    vec![
        slot(Value::U8(0), ""),
        lit("."),
        slot(Value::U8(0), ""),
        lit("."),
        slot(Value::U8(0), ""),
        lit("."),
        slot(Value::U8(0), ""),
        lit("/"),
        ParseFArg::Ranged(
            Value::U8(0),
            ReadFmt::new(""),
            InRange { start: RangeBound::Included(0), end: RangeBound::Excluded(33) },
        ),
    ]
}

fn inline(e: &ArgError) -> String {
    e.0.inline_msg.clone().unwrap_or_default()
}

#[test]
fn arg_iterator() -> Result<(), ArgError> {
    let args = ["hello", "10", "0.25", "always"];
    let mut args = Pareg::new(args.iter().map(|a| a.to_string()).collect());

    assert_eq!("hello", args.next_arg::<String>()?);
    assert_eq!(10, args.next_arg::<usize>()?);
    assert_eq!(0.25, to_f64(&args.next_arg::<FloatText>()?));
    assert_eq!(ColorMode::Always, args.next_arg::<ColorMode>()?);

    Ok(())
}

#[test]
fn has_any_key() {
    let s = "ahoj";
    let sep = ':';
    assert!(pareg::parsers::has_any_key("hello", '=', &["hello", s]));
    assert!(pareg::parsers::has_any_key("hello=", '=', &["hello", s]));
    assert!(pareg::parsers::has_any_key("ahoj:lol", sep, &["hello", s]));
    assert!(!pareg::parsers::has_any_key("greeting=ahoj", '=', &["greet", s]));
}

#[test]
fn test_parsef() {
    let mut args = address_pattern();
    let res = parsef(&mut Reader::from_str("127.5.20.1/24"), &mut args);
    assert!(res.is_ok());
    assert_eq!(
        (u8_at(&args, 0), u8_at(&args, 2), u8_at(&args, 4), u8_at(&args, 6), u8_at(&args, 8)),
        (127, 5, 20, 1, 24)
    );

    let mut args = address_pattern();
    let res = parsef_part(&mut Reader::from_str("127.5.20.1/24some other stuff"), &mut args);
    assert!(res.is_ok());
    assert_eq!(
        (u8_at(&args, 0), u8_at(&args, 2), u8_at(&args, 4), u8_at(&args, 6), u8_at(&args, 8)),
        (127, 5, 20, 1, 24)
    );

    let mut args = vec![
        slot(Value::Float(float_zero()), ""),
        lit("/"),
        slot(Value::Float(float_zero()), ""),
        lit("/"),
        slot(Value::Float(float_zero()), ""),
    ];
    let res = parsef(&mut Reader::from_str("3.1415/1.5E3/-.2"), &mut args);
    assert!(res.is_ok());
    assert_eq!(float_at(&args, 0), 3.1415);
    assert_eq!(float_at(&args, 2), 1.5E3);
    assert_eq!(float_at(&args, 4), -0.2);
}

fn float_zero() -> FloatText {
    FloatText { negative: false, int_digits: String::new(), frac_digits: String::new(), exp: 0 }
}

#[test]
fn test_format() {
    let mut args = vec![slot(Value::U32(0), "X")];
    let res = parsef(&mut Reader::from_str("fea"), &mut args);
    assert!(res.is_ok());
    assert_eq!(u32_at(&args, 0), 0xfea);

    let mut args = vec![slot(Value::U32(0), "2")];
    let res = parsef_part(&mut Reader::from_str("123"), &mut args);
    assert!(res.is_ok());
    assert_eq!(u32_at(&args, 0), 12);

    let mut args = vec![slot(Value::U32(0), "")];
    let res = parsef(&mut Reader::from_str(" 123"), &mut args);
    assert!(res.is_err());

    let mut args = vec![slot(Value::U32(0), ">")];
    let res = parsef(&mut Reader::from_str(" 123"), &mut args);
    assert!(res.is_ok());
    assert_eq!(u32_at(&args, 0), 123);

    let mut args = vec![slot(Value::Str(String::new()), "^2..4")];
    let res = parsef(&mut Reader::from_str("  ab    "), &mut args);
    assert!(res.is_ok());
    assert_eq!(str_at(&args, 0), "ab");

    let mut args = vec![slot(Value::Str(String::new()), "^2..4")];
    let res = parsef(&mut Reader::from_str("  ab c  "), &mut args);
    assert!(res.is_ok());
    assert_eq!(str_at(&args, 0), "ab c");

    let mut args = vec![slot(Value::Str(String::new()), "^4")];
    let res = parsef(&mut Reader::from_str("  ab    "), &mut args);
    assert!(res.is_ok());
    assert_eq!(str_at(&args, 0), "ab  ");

    let mut args = vec![slot(Value::Str(String::new()), "^3..4")];
    let res = parsef(&mut Reader::from_str("  ab    "), &mut args);
    assert!(res.is_ok());
    assert_eq!(str_at(&args, 0), "ab ");
}

#[test]
fn address_with_extra_input() {
    let mut args = address_pattern();
    let res = parsef(&mut Reader::from_str("127.5.20.1/24extra"), &mut args);
    assert!(res.is_err());

    let mut args = address_pattern();
    let res = parsef_part(&mut Reader::from_str("127.5.20.1/24extra"), &mut args);
    let trailing = res.expect("partial mode succeeds");
    assert!(trailing.is_some());
    assert_eq!(
        (u8_at(&args, 0), u8_at(&args, 2), u8_at(&args, 4), u8_at(&args, 6), u8_at(&args, 8)),
        (127, 5, 20, 1, 24)
    );
}

#[test]
fn unused_input_without_trailing_error() {
    let mut args = vec![slot(Value::Char(' '), "")];
    let err = parsef(&mut Reader::from_str("ab"), &mut args).unwrap_err();
    assert_eq!(inline(&err), "Unused input");
    assert_eq!(err.0.error_span, Span { start: 1, end: 1 });
}

#[test]
fn integers_at_their_bounds() {
    assert_eq!(u8::from_arg("255").unwrap(), 255);
    let err = u8::from_arg("256").unwrap_err();
    assert_eq!(inline(&err), "Number doesn't fit the target type.");
    assert_eq!(err.0.hint.as_deref(), Some("Value must be in range from `0` to `255`."));
    assert_eq!(err.0.args, vec!["256".to_string()]);
    assert_eq!(i8::from_arg("-128").unwrap(), -128);
    assert!(i8::from_arg("-129").is_err());
    assert_eq!(i64::from_arg("-9223372036854775808").unwrap(), i64::MIN);
    assert!(i64::from_arg("9223372036854775808").is_err());
    assert_eq!(u64::from_arg("18446744073709551615").unwrap(), u64::MAX);
    assert!(u64::from_arg("18446744073709551616").is_err());
    assert_eq!(inline(&u32::from_arg("").unwrap_err()), "Expected at least one digit.");
    assert_eq!(inline(&u32::from_arg("12x").unwrap_err()), "Invalid digit in string.");
}

fn decode_bytes(bytes: &[u8]) -> Result<Option<char>, ArgError> {
    Reader::from_bytes(bytes.to_vec()).next()
}

#[test]
fn utf8_decoding() {
    for c in ['a', 'é', '€', '😀', '\u{10FFFF}', '\u{100000}', '\u{7F}', '\u{80}', '\u{FFFF}'] {
        let mut buf = [0u8; 4];
        let bytes = c.encode_utf8(&mut buf).as_bytes();
        assert_eq!(decode_bytes(bytes).unwrap(), Some(c));
    }
    assert_eq!(decode_bytes(&[]).unwrap(), None);
    assert_eq!(inline(&decode_bytes(&[0xE2, 0x82]).unwrap_err()), "Utf8 expected more bytes.");
    assert_eq!(inline(&decode_bytes(&[0xE2, 0x28, 0xA1]).unwrap_err()), "Invalid utf8 trailing byte.");
    assert_eq!(inline(&decode_bytes(&[0xC0, 0x80]).unwrap_err()), "Utf8 overlong encoding.");
    assert_eq!(inline(&decode_bytes(&[0xE0, 0x80, 0x80]).unwrap_err()), "Utf8 overlong encoding.");
    assert_eq!(inline(&decode_bytes(&[0xF0, 0x80, 0x80, 0x80]).unwrap_err()), "Utf8 overlong encoding.");
    assert_eq!(inline(&decode_bytes(&[0x80]).unwrap_err()), "Invalid leading utf8 byte.");
    assert_eq!(inline(&decode_bytes(&[0xF8]).unwrap_err()), "Invalid leading utf8 byte.");
    assert_eq!(inline(&decode_bytes(&[0xED, 0xA0, 0x80]).unwrap_err()), "Invalid utf8 code.");
    assert_eq!(inline(&decode_bytes(&[0xF4, 0x90, 0x80, 0x80]).unwrap_err()), "Invalid utf8 code.");
}

#[test]
fn reader_peek_and_unnext() {
    let mut r = Reader::from_str("aé");
    assert_eq!(r.peek().unwrap(), Some('a'));
    assert_eq!(r.pos(), 0);
    assert_eq!(r.next().unwrap(), Some('a'));
    assert_eq!(r.next().unwrap(), Some('é'));
    assert_eq!(r.pos(), 3);
    r.unnext('é');
    assert_eq!(r.pos(), 1);
    assert_eq!(r.next().unwrap(), Some('é'));
    assert_eq!(r.next().unwrap(), None);
    r.prepend(&['x', 'y']);
    assert_eq!(r.next().unwrap(), Some('x'));
    assert_eq!(r.next().unwrap(), Some('y'));
}

#[test]
fn expect_reports_the_mismatch() {
    let mut r = Reader::from_str("abd");
    let err = r.expect("abc").unwrap_err();
    assert_eq!(err.0.long_msg.as_deref(), Some("Unexpected character `d`."));
    assert_eq!(inline(&err), "Expected `c` to form `abc`.");
    assert_eq!(err.0.args, vec!["abd".to_string()]);
    assert_eq!(err.0.error_span, Span { start: 2, end: 3 });
    let mut r = Reader::from_str("ab");
    let err = r.expect("abc").unwrap_err();
    assert_eq!(err.0.long_msg.as_deref(), Some("Unexpected end of string."));
    assert_eq!(inline(&err), "Expected `c` to form `abc`");
}

#[test]
fn format_specifiers() {
    let f = ReadFmt::new("x^2..4dzz");
    assert_eq!(f.trim(), Some((pareg::fmt::TrimSide::Both, Some('x'))));
    assert_eq!(f.length_range(), Some((2, 4)));
    assert_eq!(f.base(), Some(10));
    assert_eq!(f.custom(), "zz");
    let f = ReadFmt::new("..7");
    assert_eq!(f.trim(), None);
    assert_eq!(f.length_range(), Some((0, 7)));
    let f = ReadFmt::new("<3..");
    assert_eq!(f.trim(), Some((pareg::fmt::TrimSide::Right, None)));
    assert_eq!(f.length_range(), Some((3, usize::MAX)));
    let f = ReadFmt::new("o");
    assert_eq!(f.base(), Some(8));
    assert_eq!(f.length_range(), None);
    let f = ReadFmt::new("abc");
    assert_eq!(f.custom(), "abc");
}

#[test]
fn bools_and_chars() {
    assert!(bool::from_arg("true").unwrap());
    assert!(!bool::from_arg("false").unwrap());
    assert!(bool::from_arg("tru").is_err());
    assert!(bool::from_arg("yes").is_err());
    assert_eq!(char::from_arg("x").unwrap(), 'x');
    assert!(char::from_arg("").is_err());
}

#[test]
fn socket_address() {
    let s = pareg::decode::SocketV4::from_arg("10.0.0.1:8080").unwrap();
    assert_eq!((s.ip.a, s.ip.b, s.ip.c, s.ip.d, s.port), (10, 0, 0, 1, 8080));
    assert!(pareg::decode::Ipv4::from_arg("10.0.0").is_err());
}

#[test]
fn key_value_parsers() {
    let (k, v): (String, Option<u32>) = key_mval_arg("key=5", '=').unwrap();
    assert_eq!((k.as_str(), v), ("key", Some(5)));
    let (k, v): (String, Option<u32>) = key_mval_arg("only", '=').unwrap();
    assert_eq!((k.as_str(), v), ("only", None));
    let err = key_val_arg::<String, u32>("only", '=').unwrap_err();
    assert!(matches!(err.kind(), ArgErrKind::NoValue));
    let err = key_val_arg::<String, u8>("key=300", '=').unwrap_err();
    assert_eq!(err.0.args, vec!["key=300".to_string()]);
    assert_eq!(err.0.error_span, Span { start: 4, end: 6 });
    assert!(bool_arg("yes", "no", "YES").unwrap());
    assert!(!bool_arg("yes", "no", "No").unwrap());
    assert!(bool_arg("yes", "no", "maybe").is_err());
    assert_eq!(opt_bool_arg("yes", "no", "auto", "AUTO").unwrap(), None);
    assert_eq!(split_arg::<u32>("1,2,3", ",").unwrap(), vec![1, 2, 3]);
    assert_eq!(arg_list::<u32>("4;5;6", ";").unwrap(), vec![4, 5, 6]);
}

#[test]
fn cursor_moves() {
    let mut p = Pareg::new(vec!["a".to_string(), "b".to_string(), "c".to_string()]);
    assert_eq!(p.cur(), None);
    assert_eq!(p.peek(), Some("a"));
    assert_eq!(p.next(), Some("a"));
    assert_eq!(p.cur_idx(), Some(0));
    assert_eq!(p.next_idx(), Some(1));
    assert_eq!(p.remaining(), vec!["b".to_string(), "c".to_string()]);
    assert_eq!(p.skip_all(), Some("c"));
    assert_eq!(p.next(), None);
    let err = p.next_arg::<String>().unwrap_err();
    assert!(matches!(err.kind(), ArgErrKind::NoMoreArguments));
    assert_eq!(err.0.error_idx, 2);
    assert_eq!(err.0.error_span, Span { start: 1, end: 1 });
    p.reset();
    assert_eq!(p.jump(2), Some("b"));
    let err = p.err_unknown_argument();
    assert_eq!(err.0.long_msg.as_deref(), Some("Unknown argument `b`"));
}

#[test]
fn cursor_adds_arguments_to_errors() {
    let mut p = Pareg::new(vec!["-n".to_string(), "12x".to_string()]);
    p.next();
    let err = p.next_arg::<u32>().unwrap_err();
    assert_eq!(err.0.error_idx, 1);
    assert_eq!(err.0.args, vec!["-n".to_string(), "12x".to_string()]);
}

fn diagnostic(args: Vec<String>, idx: usize, span: Span) -> ArgErrCtx {
    let mut ctx = ArgErrCtx::new(ArgErrKind::FailedToParse);
    ctx.args = args;
    ctx.error_idx = idx;
    ctx.error_span = span;
    ctx.inline_msg = Some("bad".to_string());
    ctx
}

#[test]
fn render_small() {
    let ctx = diagnostic(vec!["prog".to_string(), "--num=1x".to_string()], 1, Span { start: 7, end: 8 });
    let text = ctx.render(false);
    let expected = "argument error: bad\n--> arg1:7..8\n |\n $ prog --num=1x\n |             ^ bad\n";
    assert_eq!(text, expected);
}

#[test]
fn render_truncated_window() {
    let args: Vec<String> = (0..30).map(|i| format!("argument{i:02}")).collect();
    let ctx = diagnostic(args.clone(), 15, Span { start: 2, end: 5 });
    let text = ctx.render(false);
    let lines: Vec<&str> = text.lines().collect();
    assert!(lines[3].starts_with(" $ ... "));
    assert!(lines[3].ends_with(" ..."));
    let window = &lines[3][7..lines[3].len() - 4];
    let shown: Vec<&str> = window.split(' ').collect();
    let first = args.iter().position(|a| a == shown[0]).unwrap();
    let before: usize = args[first..15].iter().map(|a| a.chars().count() + 1).sum();
    let caret_line = lines[4];
    let first_caret = caret_line.find('^').unwrap();
    assert_eq!(first_caret, 2 + 5 + before + 2);
    assert_eq!(&caret_line[first_caret..first_caret + 4], "^^^ ");
    assert!(window.chars().count() <= 69);
}

#[test]
fn render_twice_is_identical() {
    let mut ctx = diagnostic(vec!["x".to_string(), "y".to_string()], 0, Span { start: 0, end: 1 });
    ctx.hint = Some("try again".to_string());
    assert_eq!(ctx.render(false), ctx.render(false));
    assert_eq!(ctx.render(true), ctx.render(true));
    assert!(ctx.render(false).ends_with("hint: try again\n"));
    assert!(ctx.render(true).contains("\u{1b}[91m"));
}

#[test]
fn render_without_arguments() {
    let ctx = ArgErrCtx::new(ArgErrKind::NoLastArgument);
    assert_eq!(
        ctx.render(false),
        "error: There was no last argument when it was expected. If you see this error, it is propably a bug.\n"
    );
}

#[test]
fn span_transforms() {
    let mut ctx = ArgErrCtx::from_msg(ArgErrKind::InvalidValue, "m".to_string(), "12".to_string());
    ctx.shift_span(4, "key=12".to_string());
    assert_eq!(ctx.error_span, Span { start: 4, end: 6 });
    ctx.shift_span(10, "short".to_string());
    assert_eq!(ctx.error_span, Span { start: 0, end: 5 });
    let mut ctx = ArgErrCtx::from_msg(ArgErrKind::InvalidValue, "m".to_string(), "val".to_string());
    ctx.part_of("key=val".to_string());
    assert_eq!(ctx.error_span, Span { start: 4, end: 7 });
    let mut ctx = ArgErrCtx::from_msg(ArgErrKind::InvalidValue, "m".to_string(), "v".to_string());
    ctx.part_of("key=other".to_string());
    assert_eq!(ctx.error_span, Span { start: 0, end: 9 });
    let mut ctx = ArgErrCtx::from_msg(ArgErrKind::InvalidValue, "m".to_string(), "val".to_string());
    ctx.postfix_of("--val".to_string());
    assert_eq!(ctx.error_span, Span { start: 2, end: 5 });
    let mut ctx = ArgErrCtx::from_msg(ArgErrKind::InvalidValue, "m".to_string(), "--val".to_string());
    ctx.postfix_of("val".to_string());
    assert_eq!(ctx.error_span, Span { start: 0, end: 3 });
}

fn i32_of(v: &Value) -> i32 {
    match v {
        Value::I32(x) => *x,
        _ => panic!("not an i32"),
    }
}

#[test]
fn test_in_range() {
    let range = InRange { start: RangeBound::Included(0), end: RangeBound::Excluded(100) };
    let mut n = Value::I32(0);
    let empty = ReadFmt::new("");

    assert!(matches!(range.set_from_read(&mut n, &mut Reader::from_str("20"), &empty), Ok(_)));
    assert_eq!(i32_of(&n), 20);
    assert!(matches!(range.set_from_read(&mut n, &mut Reader::from_str("0"), &empty), Ok(_)));
    assert_eq!(i32_of(&n), 0);
    assert!(matches!(range.set_from_read(&mut n, &mut Reader::from_str("99"), &empty), Ok(_)));
    assert_eq!(i32_of(&n), 99);
    assert!(matches!(range.set_from_read(&mut n, &mut Reader::from_str("-1"), &empty), Err(_)));
    assert_eq!(i32_of(&n), -1);
    assert!(matches!(range.set_from_read(&mut n, &mut Reader::from_str("100"), &empty), Err(_)));
    assert_eq!(i32_of(&n), 100);
}

#[test]
fn test_in_range_i() {
    assert_eq!(InRangeI::parse("20", 0, 100).unwrap().0, 20);
    assert_eq!(InRangeI::parse("0", 0, 100).unwrap().0, 0);
    assert_eq!(InRangeI::parse("99", 0, 100).unwrap().0, 99);
    assert!(matches!(InRangeI::parse("100", 0, 100), Err(_)));
    assert!(matches!(InRangeI::parse("-1", 0, 100), Err(_)));
}

#[test]
fn test_check_ref() {
    let mut n = Value::U32(0);
    let check = CheckRef {
        check: |r: &Reader, pos: usize, a: &Value| -> Result<(), ArgError> {
            match a {
                Value::U32(x) if x % 2 == 0 => Ok(()),
                _ => Err(r.err_value(String::new()).span_start(pos)),
            }
        },
    };
    let empty = ReadFmt::new("");
    assert!(matches!(check.set_from_read(&mut n, &mut Reader::from_str("8"), &empty), Ok(None)));
    assert_eq!(u32_at(&[ParseFArg::Arg(n.clone(), ReadFmt::new(""))], 0), 8);
    assert!(matches!(check.set_from_read(&mut n, &mut Reader::from_str("9"), &empty), Err(_)));
    assert_eq!(u32_at(&[ParseFArg::Arg(n.clone(), ReadFmt::new(""))], 0), 9);
}

#[test]
fn range_error_describes_the_range() {
    let mut args = address_pattern();
    let err = parsef(&mut Reader::from_str("127.5.20.1/40"), &mut args).unwrap_err();
    assert_eq!(inline(&err), "Value must be in range from `0` to `33`.");
    assert_eq!(err.0.long_msg.as_deref(), Some("Invalid value `40`. Value must be in range from `0` to `33`."));
    assert_eq!(pareg::check::print_range_bounds(RangeBound::Unbounded, RangeBound::Included(-5)), "smaller or equal to `-5`");
}

#[test]
fn render_in_color() {
    let ctx = diagnostic(vec!["ab".to_string()], 0, Span { start: 1, end: 2 });
    let text = ctx.render(true);
    let expected = [
        "\u{1b}[91margument error:\u{1b}[0m\u{1b}[1m bad\u{1b}[0m\n",
        "\u{1b}[94m--> \u{1b}[0marg0:1..2\n",
        "\u{1b}[94m |\u{1b}[0m\n",
        " \u{1b}[94m$\u{1b}[0m ab\n",
        " \u{1b}[94m|  \u{1b}[91m^ bad\u{1b}[0m\n",
    ]
    .join("");
    assert_eq!(text, expected);
}

#[test]
fn reader_of_fallible_characters() {
    let items = vec![Ok('a'), Err(ArgError::failed_to_parse("broken".to_string(), String::new())), Ok('b')];
    let mut r = Reader::from_results(items);
    assert_eq!(r.next().unwrap(), Some('a'));
    assert_eq!(inline(&r.next().unwrap_err()), "broken");
    assert_eq!(r.next().unwrap(), Some('b'));
    assert_eq!(r.next().unwrap(), None);
    let mut r = Reader::from_chars(vec!['x', 'y']);
    assert_eq!(r.read_all(&mut String::new()).is_ok(), true);
    assert_eq!(r.next().unwrap(), None);
}

#[test]
fn parse_through_the_reader() {
    let empty = ReadFmt::new("");
    let mut r = Reader::from_str("255");
    assert_eq!(r.parse::<u8>(&empty).unwrap().0, 255);
    assert_eq!(r.peek().unwrap(), None);
    let err = Reader::from_str("256").parse::<u8>(&empty).unwrap_err();
    assert_eq!(inline(&err), "Number doesn't fit the target type.");
    assert_eq!(err.0.hint.as_deref(), Some("Value must be in range from `0` to `255`."));
    let err = Reader::from_str("-129").parse::<i8>(&empty).unwrap_err();
    assert_eq!(err.0.hint.as_deref(), Some("Value must be in range from `-128` to `127`."));
    let err = Reader::from_str("x").parse::<i32>(&empty).unwrap_err();
    assert_eq!(inline(&err), "Expected at least one digit.");
    let mut r = Reader::from_str("42;");
    let (v, t) = r.parse::<u32>(&empty).unwrap();
    assert_eq!(v, 42);
    assert!(t.is_some());
    assert_eq!(r.peek().unwrap(), Some(';'));
}

#[test]
fn failed_slot_keeps_its_value() {
    let mut target = Value::U8(7);
    assert!(target.set_from_read(&mut Reader::from_str("300"), &ReadFmt::new("")).is_err());
    assert_eq!(u8_at(&[ParseFArg::Arg(target, ReadFmt::new(""))], 0), 7);
}

#[test]
fn short_string_error() {
    let mut args = vec![slot(Value::Str(String::new()), "3")];
    let err = parsef(&mut Reader::from_str("ab"), &mut args).unwrap_err();
    assert_eq!(inline(&err), "Expected at least `3` characters but there were only `2` characters.");
}

#[test]
fn empty_length_range_is_raised() {
    assert_eq!(ReadFmt::new("5..3").length_range(), Some((5, 5)));
}

#[test]
fn unused_input_names_the_text() {
    let mut args = vec![lit("ab")];
    let err = parsef(&mut Reader::from_str("abc"), &mut args).unwrap_err();
    assert_eq!(inline(&err), "Unused input");
    assert_eq!(err.0.args, vec!["abc".to_string()]);
}
