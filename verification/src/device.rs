//! Device descriptors and the small JSON encoder that hands them to the Dart
//! side. The shape matches the Dart parser of the device list.

use vstd::prelude::*;
use vstd::std_specs::iter::IteratorSpec;

use crate::text::{digit_char, int_decimal, nat_decimal, push_char, push_decimal};

verus! {

/// The lowercase hexadecimal digit for `d` (0..=15).
pub open spec fn hex_char(d: int) -> char {
    if d < 10 {
        (('0' as u32) + d) as char
    } else {
        (('a' as u32) + d - 10) as char
    }
}

/// The JSON escape of one character inside a string literal: quote and
/// backslash are backslash-escaped, newline, carriage return and tab use
/// their short forms, other control characters use a four-digit lowercase
/// `\u` escape, and everything else stands for itself.
pub open spec fn escape_char(c: char) -> Seq<char> {
    if c == '"' {
        seq!['\\', '"']
    } else if c == '\\' {
        seq!['\\', '\\']
    } else if c == '\n' {
        seq!['\\', 'n']
    } else if c == '\r' {
        seq!['\\', 'r']
    } else if c == '\t' {
        seq!['\\', 't']
    } else if (c as u32) < 0x20 {
        seq!['\\', 'u', '0', '0', hex_char(((c as u32) / 16) as int), hex_char(((c as u32) % 16) as int)]
    } else {
        seq![c]
    }
}

/// The JSON-escaped body of a string literal for `s`.
pub open spec fn json_escape(s: Seq<char>) -> Seq<char>
    decreases s.len(),
{
    if s.len() == 0 {
        seq![]
    } else {
        escape_char(s[0]) + json_escape(s.drop_first())
    }
}

/// The quoted JSON string literal for `s`.
pub open spec fn json_string(s: Seq<char>) -> Seq<char> {
    seq!['"'] + json_escape(s) + seq!['"']
}

proof fn lemma_json_escape_push(s: Seq<char>, c: char)
    ensures
        json_escape(s.push(c)) == json_escape(s) + escape_char(c),
    decreases s.len(),
{
    if s.len() == 0 {
        assert(s.push(c).drop_first() =~= seq![]);
        assert(json_escape(s.push(c)) =~= escape_char(c) + json_escape(seq![]));
    } else {
        assert(s.push(c).drop_first() =~= s.drop_first().push(c));
        lemma_json_escape_push(s.drop_first(), c);
        assert(json_escape(s.push(c)) =~= escape_char(s[0]) + json_escape(s.drop_first().push(c)));
    }
}

/// The value of a hexadecimal digit of either case.
pub open spec fn hex_value(c: char) -> Option<int> {
    if '0' <= c && c <= '9' {
        Some(c as int - '0' as int)
    } else if 'a' <= c && c <= 'f' {
        Some(c as int - 'a' as int + 10)
    } else if 'A' <= c && c <= 'F' {
        Some(c as int - 'A' as int + 10)
    } else {
        None
    }
}

/// The character a JSON short escape `\e` stands for, if `e` names one.
pub open spec fn short_escape(e: char) -> Option<char> {
    if e == '"' {
        Some('"')
    } else if e == '\\' {
        Some('\\')
    } else if e == '/' {
        Some('/')
    } else if e == 'b' {
        Some('\x08')
    } else if e == 'f' {
        Some('\x0c')
    } else if e == 'n' {
        Some('\n')
    } else if e == 'r' {
        Some('\r')
    } else if e == 't' {
        Some('\t')
    } else {
        None
    }
}

/// The code point of the four hexadecimal digits `t[1..5]` after a `\u`.
pub open spec fn unicode_escape_value(t: Seq<char>) -> Option<int> {
    match (hex_value(t[2]), hex_value(t[3]), hex_value(t[4]), hex_value(t[5])) {
        (Some(a), Some(b), Some(c), Some(d)) => Some(a * 4096 + b * 256 + c * 16 + d),
        _ => None,
    }
}

/// Decode the body of a JSON string literal (the text between the quotes)
/// by the JSON escape rules: `None` if it is not a well-formed body (an
/// unescaped quote or control character, or a malformed escape; a `\u`
/// escape must name a non-surrogate code point).
pub open spec fn json_unescape(t: Seq<char>) -> Option<Seq<char>>
    decreases t.len(),
{
    if t.len() == 0 {
        Some(seq![])
    } else if t[0] == '\\' {
        if t.len() >= 2 && short_escape(t[1]) is Some {
            match json_unescape(t.subrange(2, t.len() as int)) {
                Some(rest) => Some(seq![short_escape(t[1]).unwrap()] + rest),
                None => None,
            }
        } else if t.len() >= 6 && t[1] == 'u' && unicode_escape_value(t) is Some {
            let code = unicode_escape_value(t).unwrap();
            if 0xD800 <= code && code <= 0xDFFF {
                None
            } else {
                match json_unescape(t.subrange(6, t.len() as int)) {
                    Some(rest) => Some(seq![(code as u32) as char] + rest),
                    None => None,
                }
            }
        } else {
            None
        }
    } else if t[0] == '"' || (t[0] as u32) < 0x20 {
        None
    } else {
        match json_unescape(t.drop_first()) {
            Some(rest) => Some(seq![t[0]] + rest),
            None => None,
        }
    }
}

proof fn lemma_hex_digit_value(d: int)
    requires
        0 <= d < 16,
    ensures
        hex_value(hex_char(d)) == Some(d),
{
    let c = hex_char(d);
    if d < 10 {
        assert((48 + d) as char as int == 48 + d);
    } else {
        assert((97 + d - 10) as char as int == 97 + d - 10);
    }
}

/// A JSON string literal produced by the encoder decodes, by the JSON
/// escape rules, back to exactly the text it was made from.
pub proof fn json_escape_decodes_back(s: Seq<char>)
    ensures
        json_unescape(json_escape(s)) == Some(s),
    decreases s.len(),
{
    if s.len() > 0 {
        let c = s[0];
        let rest = json_escape(s.drop_first());
        let e = escape_char(c);
        let t = e + rest;
        json_escape_decodes_back(s.drop_first());
        assert(t.subrange(e.len() as int, t.len() as int) =~= rest);
        if e.len() == 1 {
            assert(t.drop_first() =~= rest);
        }
        if (c as u32) < 0x20 && c != '\n' && c != '\r' && c != '\t' {
            let u = c as u32;
            lemma_hex_digit_value((u / 16) as int);
            lemma_hex_digit_value((u % 16) as int);
            assert(unicode_escape_value(t) == Some(u as int));
            assert(((u as int) as u32) as char == c) by {
                vstd::utf8::char_u32_cast(c, u);
            }
        }
        assert(seq![c] + s.drop_first() =~= s);
    }
}

/// No character of `s` is a control character (below U+0020).
pub open spec fn free_of_controls(s: Seq<char>) -> bool {
    forall|i: int| 0 <= i < s.len() ==> (#[trigger] s[i] as u32) >= 0x20
}

/// `s` holds nothing that JSON escapes: no quote, no backslash and no
/// control character.
pub open spec fn plain_json_text(s: Seq<char>) -> bool {
    forall|i: int| 0 <= i < s.len() ==> #[trigger] s[i] != '"' && s[i] != '\\' && (s[i] as u32) >= 0x20
}

proof fn lemma_free_of_controls_concat(a: Seq<char>, b: Seq<char>)
    requires
        free_of_controls(a),
        free_of_controls(b),
    ensures
        free_of_controls(a + b),
{
    assert forall|i: int| 0 <= i < (a + b).len() implies ((a + b)[i] as u32) >= 0x20 by {
        if i >= a.len() {
            assert((a + b)[i] == b[i - a.len()]);
        }
    }
}

proof fn lemma_hex_char_printable(d: int)
    requires
        0 <= d < 16,
    ensures
        (hex_char(d) as u32) >= 0x20,
{
    if d < 10 {
        assert((48 + d) as char as u32 == 48 + d);
    } else {
        assert((97 + d - 10) as char as u32 == 97 + d - 10);
    }
}

/// The escaped body of a JSON string literal holds no control character,
/// and text with nothing to escape stands for itself, character for
/// character and in order.
pub proof fn json_escape_is_printable(s: Seq<char>)
    ensures
        free_of_controls(json_escape(s)),
        plain_json_text(s) ==> json_escape(s) == s,
    decreases s.len(),
{
    if s.len() > 0 {
        let c = s[0];
        json_escape_is_printable(s.drop_first());
        if (c as u32) < 0x20 && c != '\n' && c != '\r' && c != '\t' {
            lemma_hex_char_printable(((c as u32) / 16) as int);
            lemma_hex_char_printable(((c as u32) % 16) as int);
        }
        let e = escape_char(c);
        assert(free_of_controls(e)) by {
            assert forall|i: int| 0 <= i < e.len() implies (#[trigger] e[i] as u32) >= 0x20 by {
                if (c as u32) < 0x20 && c != '\n' && c != '\r' && c != '\t' && i >= 4 {
                    lemma_hex_char_printable(((c as u32) / 16) as int);
                    lemma_hex_char_printable(((c as u32) % 16) as int);
                }
            }
        }
        lemma_free_of_controls_concat(e, json_escape(s.drop_first()));
        if plain_json_text(s) {
            assert(plain_json_text(s.drop_first())) by {
                assert forall|i: int| 0 <= i < s.drop_first().len() implies #[trigger] s.drop_first()[i] != '"'
                    && s.drop_first()[i] != '\\' && (s.drop_first()[i] as u32) >= 0x20 by {
                    assert(s.drop_first()[i] == s[i + 1]);
                }
            }
            assert(seq![c] + s.drop_first() =~= s);
        }
    }
}

/// The lowercase hexadecimal digit for `d`.
fn hex_digit(d: u32) -> (c: char)
    requires
        d < 16,
    ensures
        c == hex_char(d as int),
{
    if d == 0 {
        '0'
    } else if d == 1 {
        '1'
    } else if d == 2 {
        '2'
    } else if d == 3 {
        '3'
    } else if d == 4 {
        '4'
    } else if d == 5 {
        '5'
    } else if d == 6 {
        '6'
    } else if d == 7 {
        '7'
    } else if d == 8 {
        '8'
    } else if d == 9 {
        '9'
    } else if d == 10 {
        'a'
    } else if d == 11 {
        'b'
    } else if d == 12 {
        'c'
    } else if d == 13 {
        'd'
    } else if d == 14 {
        'e'
    } else {
        'f'
    }
}

/// Append the JSON escape of one character.
fn push_escaped_char(out: &mut String, c: char)
    ensures
        final(out)@ == old(out)@ + escape_char(c),
{
    if c == '"' {
        push_char(out, '\\');
        push_char(out, '"');
    } else if c == '\\' {
        push_char(out, '\\');
        push_char(out, '\\');
    } else if c == '\n' {
        push_char(out, '\\');
        push_char(out, 'n');
    } else if c == '\r' {
        push_char(out, '\\');
        push_char(out, 'r');
    } else if c == '\t' {
        push_char(out, '\\');
        push_char(out, 't');
    } else if (c as u32) < 0x20 {
        let code = c as u32;
        push_char(out, '\\');
        push_char(out, 'u');
        push_char(out, '0');
        push_char(out, '0');
        push_char(out, hex_digit(code / 16));
        push_char(out, hex_digit(code % 16));
    } else {
        push_char(out, c);
    }
    assert(out@ =~= old(out)@ + escape_char(c));
}

/// Append a JSON-escaped, quoted string.
pub fn push_json_string(out: &mut String, s: &str)
    ensures
        final(out)@ == old(out)@ + json_string(s@),
{
    push_char(out, '"');
    let ghost start = out@;
    let ghost mut n: int = 0;
    let mut chars = s.chars();
    for c in it: chars
        invariant
            it.seq() == s@,
            n == it.index(),
            out@ == start + json_escape(s@.take(n)),
    {
        assert(c == it.seq()[it.index() as int]);
        push_escaped_char(out, c);
        proof {
            lemma_json_escape_push(it.seq().take(it.index() as int), c);
            assert(it.seq().take(it.index() + 1) =~= it.seq().take(it.index() as int).push(c));
            n = n + 1;
        }
    }
    assert(s@.take(n) =~= s@);
    push_char(out, '"');
}

/// Pixel layout of captured frames. The order is the wire contract with the
/// Dart `PixelFormat`.
#[derive(Clone, Copy, Debug, PartialEq, Eq, Structural)]
pub enum PixelFormat {
    Rgba8888,
    Bgra8888,
    Yuyv422,
    Mjpeg,
}

impl PixelFormat {
    /// The name the JSON device list uses for this format.
    pub open spec fn name(self) -> Seq<char> {
        match self {
            PixelFormat::Rgba8888 => "rgba8888"@,
            PixelFormat::Bgra8888 => "bgra8888"@,
            PixelFormat::Yuyv422 => "yuyv422"@,
            PixelFormat::Mjpeg => "mjpeg"@,
        }
    }

    /// The integer the C interface passes for this format: its position in
    /// the wire order.
    pub open spec fn code(self) -> i32 {
        match self {
            PixelFormat::Rgba8888 => 0,
            PixelFormat::Bgra8888 => 1,
            PixelFormat::Yuyv422 => 2,
            PixelFormat::Mjpeg => 3,
        }
    }

    /// The JSON name of this format.
    pub fn as_str(self) -> (s: &'static str)
        ensures
            s@ == self.name(),
    {
        match self {
            PixelFormat::Rgba8888 => "rgba8888",
            PixelFormat::Bgra8888 => "bgra8888",
            PixelFormat::Yuyv422 => "yuyv422",
            PixelFormat::Mjpeg => "mjpeg",
        }
    }

    /// The integer the C interface passes for this format.
    pub fn wire_code(self) -> (c: i32)
        ensures
            c == self.code(),
    {
        match self {
            PixelFormat::Rgba8888 => 0,
            PixelFormat::Bgra8888 => 1,
            PixelFormat::Yuyv422 => 2,
            PixelFormat::Mjpeg => 3,
        }
    }
}

/// A supported capture format.
pub struct Format {
    pub width: i32,
    pub height: i32,
    pub pixel_format: PixelFormat,
    /// The frame rate as the JSON number text the device list carries (the
    /// host renders the floating-point rate).
    pub frame_rate: String,
}

/// A camera the host exposes.
pub struct Device {
    pub id: String,
    pub name: String,
    /// One of "front", "back", "external".
    pub facing: String,
    pub formats: Vec<Format>,
}

/// `items` joined by commas.
pub open spec fn join_commas(items: Seq<Seq<char>>) -> Seq<char>
    decreases items.len(),
{
    if items.len() == 0 {
        seq![]
    } else if items.len() == 1 {
        items[0]
    } else {
        join_commas(items.drop_last()) + seq![','] + items.last()
    }
}

/// The JSON object for one format.
pub open spec fn format_json(f: Format) -> Seq<char> {
    "{\"width\":"@ + int_decimal(f.width as int) + ",\"height\":"@ + int_decimal(f.height as int)
        + ",\"pixel_format\":\""@ + f.pixel_format.name() + "\",\"frame_rate\":"@ + f.frame_rate@
        + "}"@
}

/// The JSON object for one device.
pub open spec fn device_json(d: Device) -> Seq<char> {
    "{\"id\":"@ + json_string(d.id@) + ",\"name\":"@ + json_string(d.name@) + ",\"facing\":"@
        + json_string(d.facing@) + ",\"formats\":["@ + join_commas(
        d.formats@.map_values(|f: Format| format_json(f)),
    ) + "]}"@
}

/// The JSON array for a device list.
pub open spec fn devices_json(devices: Seq<Device>) -> Seq<char> {
    "["@ + join_commas(devices.map_values(|d: Device| device_json(d))) + "]"@
}

proof fn lemma_join_commas_push(items: Seq<Seq<char>>, item: Seq<char>)
    ensures
        join_commas(items.push(item)) == if items.len() == 0 {
            item
        } else {
            join_commas(items) + seq![','] + item
        },
{
    assert(items.push(item).drop_last() =~= items);
}

/// Append the JSON object for one format.
fn push_format_json(out: &mut String, f: &Format)
    ensures
        final(out)@ == old(out)@ + format_json(*f),
{
    out.append("{\"width\":");
    push_decimal(out, f.width);
    out.append(",\"height\":");
    push_decimal(out, f.height);
    out.append(",\"pixel_format\":\"");
    out.append(f.pixel_format.as_str());
    out.append("\",\"frame_rate\":");
    out.append(f.frame_rate.as_str());
    out.append("}");
    assert(out@ =~= old(out)@ + format_json(*f));
}

/// Append the JSON object for one device.
fn push_device_json(out: &mut String, d: &Device)
    ensures
        final(out)@ == old(out)@ + device_json(*d),
{
    out.append("{\"id\":");
    push_json_string(out, d.id.as_str());
    out.append(",\"name\":");
    push_json_string(out, d.name.as_str());
    out.append(",\"facing\":");
    push_json_string(out, d.facing.as_str());
    out.append(",\"formats\":[");
    let ghost head = out@;
    let ghost items = d.formats@.map_values(|f: Format| format_json(f));
    let mut j: usize = 0;
    while j < d.formats.len()
        invariant
            j <= d.formats@.len(),
            items == d.formats@.map_values(|f: Format| format_json(f)),
            out@ == head + join_commas(items.take(j as int)),
        decreases d.formats@.len() - j,
    {
        let ghost before = out@;
        if j > 0 {
            push_char(out, ',');
        }
        push_format_json(out, &d.formats[j]);
        proof {
            assert(items.take(j + 1) =~= items.take(j as int).push(format_json(d.formats@[j as int])));
            lemma_join_commas_push(items.take(j as int), format_json(d.formats@[j as int]));
        }
        j += 1;
    }
    assert(items.take(j as int) =~= items);
    out.append("]}");
    assert(out@ =~= old(out)@ + device_json(*d));
}

/// Encode devices as a JSON array string.
pub fn devices_to_json(devices: &[Device]) -> (json: String)
    ensures
        json@ == devices_json(devices@),
{
    let mut out = String::new();
    out.append("[");
    let ghost items = devices@.map_values(|d: Device| device_json(d));
    let mut i: usize = 0;
    while i < devices.len()
        invariant
            i <= devices@.len(),
            items == devices@.map_values(|d: Device| device_json(d)),
            out@ == "["@ + join_commas(items.take(i as int)),
        decreases devices@.len() - i,
    {
        if i > 0 {
            push_char(&mut out, ',');
        }
        push_device_json(&mut out, &devices[i]);
        proof {
            assert(items.take(i + 1) =~= items.take(i as int).push(device_json(devices@[i as int])));
            lemma_join_commas_push(items.take(i as int), device_json(devices@[i as int]));
        }
        i += 1;
    }
    assert(items.take(i as int) =~= items);
    out.append("]");
    out
}

proof fn lemma_nat_decimal_printable(n: nat)
    ensures
        free_of_controls(nat_decimal(n)),
    decreases n,
{
    let d = (n % 10) as int;
    assert((digit_char(d) as u32) >= 0x20) by {
        assert((48 + d) as char as u32 == 48 + d);
    }
    if n >= 10 {
        lemma_nat_decimal_printable(n / 10);
        lemma_free_of_controls_concat(nat_decimal(n / 10), seq![digit_char(d)]);
    } else {
        assert(free_of_controls(seq![digit_char(n as int)]));
    }
}

proof fn lemma_int_decimal_printable(n: int)
    ensures
        free_of_controls(int_decimal(n)),
{
    if n < 0 {
        lemma_nat_decimal_printable((-n) as nat);
        lemma_free_of_controls_concat(seq!['-'], nat_decimal((-n) as nat));
    } else {
        lemma_nat_decimal_printable(n as nat);
    }
}

proof fn lemma_join_commas_printable(items: Seq<Seq<char>>)
    requires
        forall|i: int| 0 <= i < items.len() ==> free_of_controls(#[trigger] items[i]),
    ensures
        free_of_controls(join_commas(items)),
    decreases items.len(),
{
    if items.len() == 1 {
        assert(free_of_controls(items[0]));
    } else if items.len() > 1 {
        let init = items.drop_last();
        assert forall|i: int| 0 <= i < init.len() implies free_of_controls(#[trigger] init[i]) by {
            assert(init[i] == items[i]);
        }
        lemma_join_commas_printable(init);
        assert(free_of_controls(items[items.len() - 1]));
        lemma_free_of_controls_concat(join_commas(init), seq![',']);
        lemma_free_of_controls_concat(join_commas(init) + seq![','], items.last());
    }
}

proof fn lemma_format_json_printable(f: Format)
    requires
        free_of_controls(f.frame_rate@),
    ensures
        free_of_controls(format_json(f)),
{
    reveal_strlit("{\"width\":");
    reveal_strlit(",\"height\":");
    reveal_strlit(",\"pixel_format\":\"");
    reveal_strlit("\",\"frame_rate\":");
    reveal_strlit("}");
    reveal_strlit("rgba8888");
    reveal_strlit("bgra8888");
    reveal_strlit("yuyv422");
    reveal_strlit("mjpeg");
    lemma_int_decimal_printable(f.width as int);
    lemma_int_decimal_printable(f.height as int);
    let parts = seq![
        "{\"width\":"@,
        int_decimal(f.width as int),
        ",\"height\":"@,
        int_decimal(f.height as int),
        ",\"pixel_format\":\""@,
        f.pixel_format.name(),
        "\",\"frame_rate\":"@,
        f.frame_rate@,
        "}"@,
    ];
    assert forall|i: int| 0 <= i < parts.len() implies free_of_controls(#[trigger] parts[i]) by {}
    lemma_free_of_controls_concat(parts[0], parts[1]);
    lemma_free_of_controls_concat(parts[0] + parts[1], parts[2]);
    lemma_free_of_controls_concat(parts[0] + parts[1] + parts[2], parts[3]);
    lemma_free_of_controls_concat(parts[0] + parts[1] + parts[2] + parts[3], parts[4]);
    lemma_free_of_controls_concat(parts[0] + parts[1] + parts[2] + parts[3] + parts[4], parts[5]);
    lemma_free_of_controls_concat(parts[0] + parts[1] + parts[2] + parts[3] + parts[4] + parts[5], parts[6]);
    lemma_free_of_controls_concat(
        parts[0] + parts[1] + parts[2] + parts[3] + parts[4] + parts[5] + parts[6],
        parts[7],
    );
    lemma_free_of_controls_concat(
        parts[0] + parts[1] + parts[2] + parts[3] + parts[4] + parts[5] + parts[6] + parts[7],
        parts[8],
    );
}

proof fn lemma_device_json_printable(d: Device)
    requires
        forall|j: int| 0 <= j < d.formats@.len() ==> free_of_controls(#[trigger] d.formats@[j].frame_rate@),
    ensures
        free_of_controls(device_json(d)),
{
    reveal_strlit("{\"id\":");
    reveal_strlit(",\"name\":");
    reveal_strlit(",\"facing\":");
    reveal_strlit(",\"formats\":[");
    reveal_strlit("]}");
    let items = d.formats@.map_values(|f: Format| format_json(f));
    assert forall|j: int| 0 <= j < items.len() implies free_of_controls(#[trigger] items[j]) by {
        lemma_format_json_printable(d.formats@[j]);
    }
    lemma_join_commas_printable(items);
    json_escape_is_printable(d.id@);
    json_escape_is_printable(d.name@);
    json_escape_is_printable(d.facing@);
    let q = seq!['"'];
    lemma_free_of_controls_concat(q, json_escape(d.id@));
    lemma_free_of_controls_concat(q + json_escape(d.id@), q);
    lemma_free_of_controls_concat(q, json_escape(d.name@));
    lemma_free_of_controls_concat(q + json_escape(d.name@), q);
    lemma_free_of_controls_concat(q, json_escape(d.facing@));
    lemma_free_of_controls_concat(q + json_escape(d.facing@), q);
    let parts = seq![
        "{\"id\":"@,
        json_string(d.id@),
        ",\"name\":"@,
        json_string(d.name@),
        ",\"facing\":"@,
        json_string(d.facing@),
        ",\"formats\":["@,
        join_commas(items),
        "]}"@,
    ];
    assert forall|i: int| 0 <= i < parts.len() implies free_of_controls(#[trigger] parts[i]) by {}
    lemma_free_of_controls_concat(parts[0], parts[1]);
    lemma_free_of_controls_concat(parts[0] + parts[1], parts[2]);
    lemma_free_of_controls_concat(parts[0] + parts[1] + parts[2], parts[3]);
    lemma_free_of_controls_concat(parts[0] + parts[1] + parts[2] + parts[3], parts[4]);
    lemma_free_of_controls_concat(parts[0] + parts[1] + parts[2] + parts[3] + parts[4], parts[5]);
    lemma_free_of_controls_concat(parts[0] + parts[1] + parts[2] + parts[3] + parts[4] + parts[5], parts[6]);
    lemma_free_of_controls_concat(
        parts[0] + parts[1] + parts[2] + parts[3] + parts[4] + parts[5] + parts[6],
        parts[7],
    );
    lemma_free_of_controls_concat(
        parts[0] + parts[1] + parts[2] + parts[3] + parts[4] + parts[5] + parts[6] + parts[7],
        parts[8],
    );
}

/// The device-list document holds no control character (so it passes as a
/// C string, NUL-free) whenever no frame-rate text holds one: every other
/// piece of it is escaped strings, decimal integers and punctuation.
pub proof fn device_list_is_printable(devices: Seq<Device>)
    requires
        forall|i: int, j: int|
            0 <= i < devices.len() && 0 <= j < devices[i].formats@.len() ==> free_of_controls(
                #[trigger] devices[i].formats@[j].frame_rate@,
            ),
    ensures
        free_of_controls(devices_json(devices)),
{
    reveal_strlit("[");
    reveal_strlit("]");
    let items = devices.map_values(|d: Device| device_json(d));
    assert forall|i: int| 0 <= i < items.len() implies free_of_controls(#[trigger] items[i]) by {
        let d = devices[i];
        assert forall|j: int| 0 <= j < d.formats@.len() implies free_of_controls(
            #[trigger] d.formats@[j].frame_rate@,
        ) by {
            assert(free_of_controls(devices[i].formats@[j].frame_rate@));
        }
        lemma_device_json_printable(d);
    }
    lemma_join_commas_printable(items);
    lemma_free_of_controls_concat("["@, join_commas(items));
    lemma_free_of_controls_concat("["@ + join_commas(items), "]"@);
}

/// The wire order of pixel formats, shared with the Dart side: rgba8888 is
/// 0, bgra8888 1, yuyv422 2 and mjpeg 3, and each has its own name.
pub proof fn pixel_format_wire_order()
    ensures
        PixelFormat::Rgba8888.code() == 0,
        PixelFormat::Bgra8888.code() == 1,
        PixelFormat::Yuyv422.code() == 2,
        PixelFormat::Mjpeg.code() == 3,
        PixelFormat::Rgba8888.name() == "rgba8888"@,
        PixelFormat::Bgra8888.name() == "bgra8888"@,
        PixelFormat::Yuyv422.name() == "yuyv422"@,
        PixelFormat::Mjpeg.name() == "mjpeg"@,
        LensFacing::Front.name() == "front"@,
        LensFacing::Back.name() == "back"@,
        LensFacing::External.name() == "external"@,
{
}

/// Which way a camera faces.
#[derive(Clone, Copy, Debug, PartialEq, Eq, Structural)]
pub enum LensFacing {
    Front,
    Back,
    /// Unknown, or a camera not built into the device.
    External,
}

impl LensFacing {
    /// The name the device list uses for this facing.
    pub open spec fn name(self) -> Seq<char> {
        match self {
            LensFacing::Front => "front"@,
            LensFacing::Back => "back"@,
            LensFacing::External => "external"@,
        }
    }

    /// The name the device list uses for this facing.
    pub fn as_str(self) -> (s: &'static str)
        ensures
            s@ == self.name(),
    {
        match self {
            LensFacing::Front => "front",
            LensFacing::Back => "back",
            LensFacing::External => "external",
        }
    }
}

} // verus!
