use brief::compiler::wrapper::c::suggest_postconditions;
use brief::compiler::wrapper::function::AnalyzedFunction;
use brief::ffi_lib::native::{
    __array_val, __bytes, __char_to_codepoint, __codepoint_to_char, __contains_at, __div_rem, __eq_ignore_case,
    __escape, __find_from, __from_bytes, __get_chars, __hex_encode, __hex_encode_bytes, __hour, __html_escape,
    __html_unescape, __is_alpha, __is_alphanumeric, __is_array, __is_bool, __is_lower, __is_null, __is_numeric,
    __is_object, __is_string, __is_upper, __is_whitespace, __minute, __quote, __random_int, __replace_all,
    __reverse, __rfind, __second, __signum, __string_val, __timestamp, __timestamp_full, __to_bool, __to_lower,
    __to_title, __to_upper, __truncate, __truncate_with, __unescape, __unquote, __url_decode, __url_encode,
    __url_encode_component, __utf8_decode, __utf8_encode, __utf8_len, __weekday, __words, __year, __yearday,
    random_int_from, __splitn, __rsplit, __now, __now_millis, __now_micros, time_from_reading, __gcd, __lcm,
};

fn s(x: &str) -> String {
    x.to_string()
}

fn ok(x: &str) -> Result<String, String> {
    Ok(x.to_string())
}

#[test]
fn native_div_rem_and_signum() {
    assert_eq!(__div_rem(7, 3), Ok(1));
    assert_eq!(__div_rem(-7, 3), Ok(-1));
    assert_eq!(__div_rem(7, -3), Ok(1));
    assert_eq!(__div_rem(5, 0), Err(s("Division by zero")));
    assert_eq!(__signum(-5), Ok(-1));
    assert_eq!(__signum(0), Ok(0));
    assert_eq!(__signum(9), Ok(1));
}

#[test]
fn native_escape_and_unescape() {
    assert_eq!(__escape(s("a\"b\\c\nd\te\r\u{1}")), ok("a\\\"b\\\\c\\nd\\te\\r\\u0001"));
    assert_eq!(__escape(s("\u{7f}\u{9f}é")), ok("\\u007f\\u009fé"));
    assert_eq!(__unescape(s("a\\nb\\\\c\\\"d\\x\\")), ok("a\nb\\c\"dx\\"));
    let text = s("line1\n\"quoted\"\t\\ end\r");
    assert_eq!(__unescape(__escape(text.clone()).unwrap()), Ok(text));
}

#[test]
fn native_quote_and_unquote() {
    assert_eq!(__quote(s("hi")), ok("\"hi\""));
    assert_eq!(__unquote(s("\"hi\"")), ok("hi"));
    assert_eq!(__unquote(s("\"")), ok("\""));
    assert_eq!(__unquote(s("\"\"")), ok(""));
    assert_eq!(__unquote(s("hi")), ok("hi"));
    assert_eq!(__unquote(__quote(s("x\"y")).unwrap()), ok("x\"y"));
}

#[test]
fn native_truncate() {
    assert_eq!(__truncate(s("hello"), 10), ok("hello"));
    assert_eq!(__truncate(s("hello"), 3), ok("hel"));
    assert_eq!(__truncate(s("héllo"), 5), ok("héllo"));
    assert_eq!(__truncate(s("héllo"), 2), ok("hé"));
    assert_eq!(__truncate(s("abc"), -1), ok("abc"));
    assert_eq!(__truncate_with(s("hello world"), 8, s("...")), ok("hello..."));
    assert_eq!(__truncate_with(s("hello"), 2, s("...")), ok(".."));
    assert_eq!(__truncate_with(s("hi"), 5, s("...")), ok("hi"));
}

#[test]
fn native_case() {
    assert_eq!(__to_lower(s("ÀB")), ok("àb"));
    assert_eq!(__to_upper(s("ab")), ok("AB"));
    assert_eq!(__eq_ignore_case(s("Hello"), s("hELLO")), Ok(true));
    assert_eq!(__eq_ignore_case(s("Hello"), s("help")), Ok(false));
    assert_eq!(__to_bool(s("YES")), Ok(true));
    assert_eq!(__to_bool(s("True")), Ok(true));
    assert_eq!(__to_bool(s("1")), Ok(true));
    assert_eq!(__to_bool(s("0")), Ok(false));
    assert_eq!(__to_bool(s("maybe")), Ok(false));
    assert_eq!(__to_title(s("hello wORLD  foo")), ok("Hello World  Foo"));
    assert_eq!(__to_title(s("123abc def")), ok("123Abc Def"));
}

#[test]
fn native_html() {
    let raw = s("<a href=\"x\">'&'</a>");
    let escaped = "&lt;a href=&quot;x&quot;&gt;&#39;&amp;&#39;&lt;/a&gt;";
    assert_eq!(__html_escape(raw.clone()), ok(escaped));
    assert_eq!(__html_unescape(s(escaped)), Ok(raw));
    // an entity in the input is read back one step too far
    assert_eq!(__html_unescape(__html_escape(s("&lt;")).unwrap()), ok("<"));
}

#[test]
fn native_url_and_hex() {
    assert_eq!(__url_encode(s("a b/é~")), ok("a%20b%2F%E9~"));
    assert_eq!(__url_encode(s("€")), ok("%AC"));
    assert_eq!(__url_encode_component(s("a b")), ok("a%20b"));
    assert_eq!(__url_decode(s("a%20b%2F")), ok("a b%2F"));
    assert_eq!(__hex_encode(s("AZ")), ok("415a"));
    assert_eq!(__hex_encode_bytes(vec![0, 255, -1, 16, 256]), ok("00ffff1000"));
}

#[test]
fn native_byte_positions() {
    assert_eq!(__find_from(s("hello hello"), s("llo"), 3), Ok(8));
    assert_eq!(__find_from(s("hello"), s("l"), 0), Ok(2));
    assert_eq!(__find_from(s("hello"), s("x"), 0), Ok(-1));
    assert_eq!(__find_from(s("abc"), s(""), 3), Ok(3));
    assert_eq!(__find_from(s("abc"), s("a"), -1), Ok(-1));
    assert_eq!(__find_from(s("abc"), s("a"), 10), Ok(-1));
    assert_eq!(__find_from(s("héllo"), s("l"), 3), Ok(3));
    assert_eq!(__contains_at(s("abcabc"), s("abc"), 1), Ok(true));
    assert_eq!(__contains_at(s("abcabc"), s("abc"), 4), Ok(false));
    assert_eq!(__contains_at(s("ab"), s("a"), 5), Ok(false));
    assert_eq!(__rfind(s("abcabc"), s("bc")), Ok(4));
    assert_eq!(__rfind(s("héllo"), s("l")), Ok(4));
    assert_eq!(__rfind(s("abc"), s("")), Ok(3));
    assert_eq!(__rfind(s("abc"), s("z")), Ok(-1));
    assert_eq!(__utf8_len(s("héllo")), Ok(6));
}

#[test]
fn native_bytes_and_code_points() {
    assert_eq!(__bytes(s("é")), Ok(vec![195, 169]));
    assert_eq!(__utf8_encode(s("aé")), Ok(vec![97, 233]));
    assert_eq!(__get_chars(s("ab")), Ok(vec![s("a"), s("b")]));
    assert_eq!(__utf8_decode(vec![104, 0xD800, 105, -1]), ok("hi"));
    assert_eq!(__codepoint_to_char(65), ok("A"));
    assert_eq!(__codepoint_to_char(0x110000), ok(""));
    assert_eq!(__char_to_codepoint(s("é")), Ok(233));
    assert_eq!(__char_to_codepoint(s("")), Ok(0));
    assert_eq!(__from_bytes(vec![104, 105]), ok("hi"));
    assert_eq!(__from_bytes(vec![-61, -87]), ok("é"));
    assert_eq!(__from_bytes(vec![0xff]), Err(s("Invalid UTF-8")));
}

#[test]
fn native_character_classes() {
    assert_eq!(__is_whitespace(s("")), Ok(true));
    assert_eq!(__is_whitespace(s(" \t")), Ok(true));
    assert_eq!(__is_alpha(s("")), Ok(false));
    assert_eq!(__is_alpha(s("abc")), Ok(true));
    assert_eq!(__is_alpha(s("ab1")), Ok(false));
    assert_eq!(__is_alphanumeric(s("ab1")), Ok(true));
    assert_eq!(__is_numeric(s("123")), Ok(true));
    assert_eq!(__is_lower(s("abc1")), Ok(true));
    assert_eq!(__is_lower(s("Abc")), Ok(false));
    assert_eq!(__is_upper(s("ABC!")), Ok(true));
    assert_eq!(__is_upper(s("")), Ok(false));
}

#[test]
fn native_replace() {
    assert_eq!(__replace_all(s("aaa"), s("a"), s("b")), ok("bbb"));
    assert_eq!(__replace_all(s("ab"), s(""), s("-")), ok("-a-b-"));
    assert_eq!(__replace_all(s("abc"), s("bc"), s("")), ok("a"));
}

#[test]
fn native_random() {
    assert_eq!(random_int_from(1, 10, 25), Ok(6));
    assert_eq!(random_int_from(5, 5, 0), Err(s("min must be less than max")));
    let v = __random_int(1, 6).unwrap();
    assert!((1..=6).contains(&v));
    assert_eq!(__random_int(3, 2), Err(s("min must be less than max")));
}

#[test]
fn native_calendar() {
    assert_eq!(__year(0), Ok(1970));
    assert_eq!(__year(31536000 * 2), Ok(1972));
    assert_eq!(__year(-1), Ok(1970));
    assert_eq!(__hour(3661), Ok(1));
    assert_eq!(__hour(-3661), Ok(-1));
    assert_eq!(__minute(3661), Ok(1));
    assert_eq!(__second(3661), Ok(1));
    assert_eq!(__second(-61), Ok(-1));
    assert_eq!(__weekday(0), Ok(4));
    assert_eq!(__weekday(86400 * 3), Ok(0));
    assert_eq!(__yearday(86400 * 40), Ok(40));
    assert_eq!(__timestamp(1970, 1, 1), Ok(86400));
    assert_eq!(__timestamp_full(1970, 1, 1, 1, 1, 1), Ok(90061));
}

#[test]
fn native_lists_and_json_text() {
    assert_eq!(__words(s("  a bc\td ")), Ok(vec![s("a"), s("bc"), s("d")]));
    assert_eq!(__reverse(vec![s("a"), s("b")]), Ok(vec![s("b"), s("a")]));
    assert_eq!(__string_val(s("x")), ok("\"x\""));
    assert_eq!(__array_val(vec![s("1"), s("2")]), ok("[1,2]"));
    assert_eq!(__array_val(vec![]), ok("[]"));
    assert_eq!(__is_null(s("null")), Ok(true));
    assert_eq!(__is_bool(s("false")), Ok(true));
    assert_eq!(__is_bool(s("no")), Ok(false));
    assert_eq!(__is_string(s("\"x")), Ok(true));
    assert_eq!(__is_array(s("[1]")), Ok(true));
    assert_eq!(__is_object(s("{}")), Ok(true));
    assert_eq!(__is_object(s("")), Ok(false));
}

fn c_function(ret: &str) -> AnalyzedFunction {
    AnalyzedFunction {
        name: s("f"),
        return_type: s(ret),
        parameters: vec![],
        is_variadic: false,
        comments: vec![],
    }
}

#[test]
fn c_suggested_postconditions() {
    assert_eq!(suggest_postconditions(&c_function("int")), vec![s("result >= 0")]);
    assert_eq!(suggest_postconditions(&c_function("size_t")), vec![s("result >= 0")]);
    assert_eq!(suggest_postconditions(&c_function("uint8_t")), vec![s("result >= 0")]);
    assert_eq!(suggest_postconditions(&c_function("CHAR*")), vec![s("result != null")]);
    assert_eq!(suggest_postconditions(&c_function("void*")), vec![s("result != null")]);
    assert_eq!(suggest_postconditions(&c_function("void")), vec![s("true")]);
    assert_eq!(suggest_postconditions(&c_function("double")), vec![s("true")]);
}

fn strs(v: &[&str]) -> Result<Vec<String>, String> {
    Ok(v.iter().map(|x| x.to_string()).collect())
}

#[test]
fn native_splitn_keeps_the_first_pieces() {
    assert_eq!(__splitn(s("a,b,c"), s(","), 2), strs(&["a", "b"]));
    assert_eq!(__splitn(s("a,b,c"), s(","), 10), strs(&["a", "b", "c"]));
    assert_eq!(__splitn(s("a,b,c"), s(","), 0), strs(&[]));
    assert_eq!(__splitn(s("a,b,c"), s(","), -1), strs(&["a", "b", "c"]));
    assert_eq!(__splitn(s("a::b::"), s("::"), 5), strs(&["a", "b", ""]));
    assert_eq!(__splitn(s("abc"), s(""), 10), strs(&["", "a", "b", "c", ""]));
    assert_eq!(__splitn(s(""), s(","), 3), strs(&[""]));
}

#[test]
fn native_rsplit_searches_from_the_right() {
    assert_eq!(__rsplit(s("a,b,c"), s(",")), strs(&["c", "b", "a"]));
    assert_eq!(__rsplit(s("xaaay"), s("aa")), strs(&["y", "xa"]));
    assert_eq!(__rsplit(s("abc"), s("")), strs(&["", "c", "b", "a", ""]));
    assert_eq!(__rsplit(s("abc"), s("z")), strs(&["abc"]));
}

#[test]
fn native_clock_reading_in_units() {
    assert_eq!(time_from_reading(1_700_000_000, 123_456_789, 1), 1_700_000_000);
    assert_eq!(time_from_reading(1_700_000_000, 123_456_789, 1000), 1_700_000_000_123);
    assert_eq!(time_from_reading(1_700_000_000, 123_456_789, 1_000_000), 1_700_000_000_123_456);
    assert_eq!(time_from_reading(0, 999_999_999, 1000), 999);
}

#[test]
fn native_now_counts_from_the_epoch() {
    let secs = __now().unwrap();
    let millis = __now_millis().unwrap();
    let micros = __now_micros().unwrap();
    assert!(secs > 1_600_000_000);
    assert!(millis / 1000 >= secs);
    assert!(micros / 1000 >= millis);
}

#[test]
fn native_gcd_of_magnitudes() {
    assert_eq!(__gcd(12, 18), Ok(6));
    assert_eq!(__gcd(-12, 18), Ok(6));
    assert_eq!(__gcd(12, -18), Ok(6));
    assert_eq!(__gcd(0, 5), Ok(5));
    assert_eq!(__gcd(0, 0), Ok(0));
    assert_eq!(__gcd(i64::MIN, 6), Ok(2));
    assert_eq!(__gcd(17, 5), Ok(1));
}

#[test]
fn native_lcm_of_magnitudes() {
    assert_eq!(__lcm(4, 6), Ok(12));
    assert_eq!(__lcm(-4, 6), Ok(12));
    assert_eq!(__lcm(0, 5), Ok(0));
    assert_eq!(__lcm(0, 0), Ok(0));
    assert_eq!(__lcm(7, 7), Ok(7));
}
