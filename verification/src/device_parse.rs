//! Reading the device-list document back: a reader for exactly the JSON
//! shape `devices_to_json` writes, and the proof that it recovers every
//! field of every device.

use vstd::prelude::*;

use crate::device::{
    device_json, devices_json, escape_char, format_json, hex_char, join_commas, json_escape, json_escape_decodes_back,
    json_escape_is_printable, json_string, json_unescape, plain_json_text, Device, Format, PixelFormat,
};
use crate::text::{decimal_value, digit_char, int_decimal, nat_decimal};

verus! {

/// `t` after the literal `lit`, if `t` starts with it.
pub open spec fn after(t: Seq<char>, lit: Seq<char>) -> Option<Seq<char>> {
    if lit.len() <= t.len() && t.take(lit.len() as int) == lit {
        Some(t.skip(lit.len() as int))
    } else {
        None
    }
}

/// The length of the body of a JSON string literal whose opening quote has
/// been read: the text up to the first quote that no backslash escapes.
pub open spec fn string_body_len(t: Seq<char>) -> Option<nat>
    decreases t.len(),
{
    if t.len() == 0 {
        None
    } else if t[0] == '"' {
        Some(0)
    } else if t[0] == '\\' && t.len() >= 2 {
        match string_body_len(t.skip(2)) {
            Some(n) => Some(n + 2),
            None => None,
        }
    } else {
        match string_body_len(t.drop_first()) {
            Some(n) => Some(n + 1),
            None => None,
        }
    }
}

/// Read a JSON string literal at the start of `t`: its decoded text and
/// what follows it.
pub open spec fn read_string(t: Seq<char>) -> Option<(Seq<char>, Seq<char>)> {
    if t.len() > 0 && t[0] == '"' {
        match string_body_len(t.drop_first()) {
            Some(n) => match json_unescape(t.subrange(1, n as int + 1)) {
                Some(s) => Some((s, t.skip(n as int + 2))),
                None => None,
            },
            None => None,
        }
    } else {
        None
    }
}

/// An ASCII decimal digit.
pub open spec fn is_digit(c: char) -> bool {
    '0' <= c && c <= '9'
}

/// The number of decimal digits `t` starts with.
pub open spec fn digit_run(t: Seq<char>) -> nat
    decreases t.len(),
{
    if t.len() > 0 && is_digit(t[0]) {
        1 + digit_run(t.drop_first())
    } else {
        0
    }
}

/// Read a JSON integer (an optional `-`, then digits) at the start of `t`:
/// its value and what follows it.
pub open spec fn read_int(t: Seq<char>) -> Option<(int, Seq<char>)> {
    let negative = t.len() > 0 && t[0] == '-';
    let d = if negative {
        t.drop_first()
    } else {
        t
    };
    let n = digit_run(d);
    if n == 0 {
        None
    } else {
        let v = decimal_value(d.take(n as int));
        Some((if negative { -v } else { v }, d.skip(n as int)))
    }
}

/// A character of a JSON number: a digit, a sign, a decimal point or an
/// exponent mark.
pub open spec fn is_number_char(c: char) -> bool {
    is_digit(c) || c == '-' || c == '+' || c == '.' || c == 'e' || c == 'E'
}

/// The number of JSON-number characters `t` starts with.
pub open spec fn number_run(t: Seq<char>) -> nat
    decreases t.len(),
{
    if t.len() > 0 && is_number_char(t[0]) {
        1 + number_run(t.drop_first())
    } else {
        0
    }
}

/// Read the text of a JSON number at the start of `t`: that text and what
/// follows it.
pub open spec fn read_number(t: Seq<char>) -> Option<(Seq<char>, Seq<char>)> {
    let n = number_run(t);
    if n == 0 {
        None
    } else {
        Some((t.take(n as int), t.skip(n as int)))
    }
}

/// A frame-rate text that reads back as a JSON number: one or more number
/// characters (what a finite floating-point rate renders as).
pub open spec fn number_text(s: Seq<char>) -> bool {
    s.len() > 0 && forall|i: int| 0 <= i < s.len() ==> is_number_char(#[trigger] s[i])
}

/// The fields read back for a format: width, height, pixel-format name and
/// frame-rate text.
pub type FormatFields = (int, int, Seq<char>, Seq<char>);

/// The fields read back for a device: id, name, facing and formats.
pub type DeviceFields = (Seq<char>, Seq<char>, Seq<char>, Seq<FormatFields>);

/// The fields of `f` as the document carries them.
pub open spec fn format_fields(f: Format) -> FormatFields {
    (f.width as int, f.height as int, f.pixel_format.name(), f.frame_rate@)
}

/// The fields of `d` as the document carries them.
pub open spec fn device_fields(d: Device) -> DeviceFields {
    (d.id@, d.name@, d.facing@, d.formats@.map_values(|f: Format| format_fields(f)))
}

/// Read one format object at the start of `t`.
#[verifier::opaque]
pub open spec fn read_format(t: Seq<char>) -> Option<(FormatFields, Seq<char>)> {
    match after(t, "{\"width\":"@) {
        None => None,
        Some(t) => match read_int(t) {
            None => None,
            Some((w, t)) => match after(t, ",\"height\":"@) {
                None => None,
                Some(t) => match read_int(t) {
                    None => None,
                    Some((h, t)) => match after(t, ",\"pixel_format\":"@) {
                        None => None,
                        Some(t) => match read_string(t) {
                            None => None,
                            Some((pf, t)) => match after(t, ",\"frame_rate\":"@) {
                                None => None,
                                Some(t) => match read_number(t) {
                                    None => None,
                                    Some((rate, t)) => match after(t, "}"@) {
                                        None => None,
                                        Some(t) => Some(((w, h, pf, rate), t)),
                                    },
                                },
                            },
                        },
                    },
                },
            },
        },
    }
}

/// Read format objects separated by commas and closed by `]` (the `[`
/// already read, at least one object present).
pub open spec fn read_format_items(t: Seq<char>) -> Option<(Seq<FormatFields>, Seq<char>)>
    decreases t.len(),
{
    match read_format(t) {
        None => None,
        Some((f, rest)) => if rest.len() >= t.len() {
            None
        } else if rest.len() > 0 && rest[0] == ',' {
            match read_format_items(rest.drop_first()) {
                Some((fs, after_items)) => Some((seq![f] + fs, after_items)),
                None => None,
            }
        } else if rest.len() > 0 && rest[0] == ']' {
            Some((seq![f], rest.drop_first()))
        } else {
            None
        },
    }
}

/// Read a JSON array of format objects at the start of `t`.
pub open spec fn read_format_list(t: Seq<char>) -> Option<(Seq<FormatFields>, Seq<char>)> {
    match after(t, "["@) {
        None => None,
        Some(t) => if t.len() > 0 && t[0] == ']' {
            Some((Seq::empty(), t.drop_first()))
        } else {
            read_format_items(t)
        },
    }
}

/// Read one device object at the start of `t`.
#[verifier::opaque]
pub open spec fn read_device(t: Seq<char>) -> Option<(DeviceFields, Seq<char>)> {
    match after(t, "{\"id\":"@) {
        None => None,
        Some(t) => match read_string(t) {
            None => None,
            Some((id, t)) => match after(t, ",\"name\":"@) {
                None => None,
                Some(t) => match read_string(t) {
                    None => None,
                    Some((name, t)) => match after(t, ",\"facing\":"@) {
                        None => None,
                        Some(t) => match read_string(t) {
                            None => None,
                            Some((facing, t)) => match after(t, ",\"formats\":"@) {
                                None => None,
                                Some(t) => match read_format_list(t) {
                                    None => None,
                                    Some((formats, t)) => match after(t, "}"@) {
                                        None => None,
                                        Some(t) => Some(((id, name, facing, formats), t)),
                                    },
                                },
                            },
                        },
                    },
                },
            },
        },
    }
}

/// Read device objects separated by commas and closed by `]` (the `[`
/// already read, at least one object present).
pub open spec fn read_device_items(t: Seq<char>) -> Option<(Seq<DeviceFields>, Seq<char>)>
    decreases t.len(),
{
    match read_device(t) {
        None => None,
        Some((d, rest)) => if rest.len() >= t.len() {
            None
        } else if rest.len() > 0 && rest[0] == ',' {
            match read_device_items(rest.drop_first()) {
                Some((ds, after_items)) => Some((seq![d] + ds, after_items)),
                None => None,
            }
        } else if rest.len() > 0 && rest[0] == ']' {
            Some((seq![d], rest.drop_first()))
        } else {
            None
        },
    }
}

/// Read a whole device-list document: a JSON array of device objects and
/// nothing after it.
pub open spec fn read_device_list(t: Seq<char>) -> Option<Seq<DeviceFields>> {
    match after(t, "["@) {
        None => None,
        Some(t) => {
            let items = if t.len() > 0 && t[0] == ']' {
                Some((Seq::<DeviceFields>::empty(), t.drop_first()))
            } else {
                read_device_items(t)
            };
            match items {
                Some((ds, rest)) => if rest.len() == 0 {
                    Some(ds)
                } else {
                    None
                },
                None => None,
            }
        },
    }
}

proof fn lemma_after_lit(lit: Seq<char>, rest: Seq<char>)
    ensures
        after(lit + rest, lit) == Some(rest),
{
    assert((lit + rest).take(lit.len() as int) =~= lit);
    assert((lit + rest).skip(lit.len() as int) =~= rest);
}

proof fn lemma_hex_char_plain(d: int)
    requires
        0 <= d < 16,
    ensures
        hex_char(d) != '"',
        hex_char(d) != '\\',
{
    if d < 10 {
        assert((48 + d) as char as u32 == 48 + d);
    } else {
        assert((97 + d - 10) as char as u32 == 97 + d - 10);
    }
}

proof fn lemma_string_body_len(s: Seq<char>, rest: Seq<char>)
    ensures
        string_body_len(json_escape(s) + seq!['"'] + rest) == Some(json_escape(s).len()),
    decreases s.len(),
{
    let t = json_escape(s) + seq!['"'] + rest;
    if s.len() == 0 {
        assert(t[0] == '"');
    } else {
        let c = s[0];
        let tail = json_escape(s.drop_first());
        let x = tail + seq!['"'] + rest;
        let e = escape_char(c);
        lemma_string_body_len(s.drop_first(), rest);
        assert(t =~= e + x);
        if e.len() == 1 {
            assert(t.drop_first() =~= x);
        } else if e.len() == 2 {
            assert(t.skip(2) =~= x);
        } else {
            let u = c as u32;
            lemma_hex_char_plain((u / 16) as int);
            lemma_hex_char_plain((u % 16) as int);
            let y0 = t.skip(2);
            let y1 = t.skip(3);
            let y2 = t.skip(4);
            let y3 = t.skip(5);
            assert(t.skip(6) =~= x);
            assert(y3.drop_first() =~= t.skip(6));
            assert(y2.drop_first() =~= y3);
            assert(y1.drop_first() =~= y2);
            assert(y0.drop_first() =~= y1);
            assert(y3[0] == e[5] && y2[0] == e[4] && y1[0] == e[3] && y0[0] == e[2]);
            assert(string_body_len(y3) == Some((tail.len() + 1) as nat));
            assert(string_body_len(y2) == Some((tail.len() + 2) as nat));
            assert(string_body_len(y1) == Some((tail.len() + 3) as nat));
            assert(string_body_len(y0) == Some((tail.len() + 4) as nat));
        }
    }
}

/// A JSON string literal the encoder writes reads back as its text, and
/// reading stops right after its closing quote.
proof fn lemma_read_string(s: Seq<char>, rest: Seq<char>)
    ensures
        read_string(json_string(s) + rest) == Some((s, rest)),
{
    let e = json_escape(s);
    let t = json_string(s) + rest;
    assert(t =~= seq!['"'] + (e + seq!['"'] + rest));
    assert(t.drop_first() =~= e + seq!['"'] + rest);
    lemma_string_body_len(s, rest);
    assert(t.subrange(1, e.len() as int + 1) =~= e);
    json_escape_decodes_back(s);
    assert(t.skip(e.len() as int + 2) =~= rest);
}

pub(crate) proof fn lemma_nat_decimal_reads_back(n: nat)
    ensures
        nat_decimal(n).len() > 0,
        forall|i: int| 0 <= i < nat_decimal(n).len() ==> is_digit(#[trigger] nat_decimal(n)[i]),
        decimal_value(nat_decimal(n)) == n,
    decreases n,
{
    let d = (n % 10) as int;
    assert(digit_char(d) as int == 48 + d) by {
        assert((48 + d) as char as u32 == 48 + d);
    }
    if n >= 10 {
        lemma_nat_decimal_reads_back(n / 10);
        let m = nat_decimal(n / 10);
        let all = m + seq![digit_char(d)];
        assert(all.drop_last() =~= m);
        assert forall|i: int| 0 <= i < all.len() implies is_digit(#[trigger] all[i]) by {
            if i < m.len() {
                assert(all[i] == m[i]);
            }
        }
        assert(nat_decimal(n) == all);
        assert(all.last() == digit_char(d));
        assert(decimal_value(all) == decimal_value(m) * 10 + (digit_char(d) as int - '0' as int));
        assert(n == (n / 10) * 10 + d);
    } else {
        let one = seq![digit_char(n as int)];
        assert(one.drop_last() =~= Seq::<char>::empty());
        assert(decimal_value(one) == decimal_value(one.drop_last()) * 10 + (one.last() as int - '0' as int));
    }
}

proof fn lemma_digit_run(d: Seq<char>, rest: Seq<char>)
    requires
        forall|i: int| 0 <= i < d.len() ==> is_digit(#[trigger] d[i]),
        rest.len() == 0 || !is_digit(rest[0]),
    ensures
        digit_run(d + rest) == d.len(),
    decreases d.len(),
{
    if d.len() == 0 {
        assert(d + rest =~= rest);
    } else {
        assert((d + rest).drop_first() =~= d.drop_first() + rest);
        assert forall|i: int| 0 <= i < d.drop_first().len() implies is_digit(#[trigger] d.drop_first()[i]) by {
            assert(d.drop_first()[i] == d[i + 1]);
        }
        lemma_digit_run(d.drop_first(), rest);
    }
}

/// A decimal integer the encoder writes reads back as its value, when what
/// follows it is not a digit.
proof fn lemma_read_int(n: int, rest: Seq<char>)
    requires
        rest.len() > 0,
        !is_digit(rest[0]),
    ensures
        read_int(int_decimal(n) + rest) == Some((n, rest)),
{
    let m = if n < 0 {
        (-n) as nat
    } else {
        n as nat
    };
    let digits = nat_decimal(m);
    lemma_nat_decimal_reads_back(m);
    lemma_digit_run(digits, rest);
    let t = int_decimal(n) + rest;
    let d = digits + rest;
    if n < 0 {
        assert(t =~= seq!['-'] + d);
        assert(t.drop_first() =~= d);
    } else {
        assert(t =~= d);
        assert(is_digit(digits[0]));
    }
    assert(d.take(digits.len() as int) =~= digits);
    assert(d.skip(digits.len() as int) =~= rest);
}

proof fn lemma_number_run(d: Seq<char>, rest: Seq<char>)
    requires
        forall|i: int| 0 <= i < d.len() ==> is_number_char(#[trigger] d[i]),
        rest.len() == 0 || !is_number_char(rest[0]),
    ensures
        number_run(d + rest) == d.len(),
    decreases d.len(),
{
    if d.len() == 0 {
        assert(d + rest =~= rest);
    } else {
        assert((d + rest).drop_first() =~= d.drop_first() + rest);
        assert forall|i: int| 0 <= i < d.drop_first().len() implies is_number_char(#[trigger] d.drop_first()[i]) by {
            assert(d.drop_first()[i] == d[i + 1]);
        }
        lemma_number_run(d.drop_first(), rest);
    }
}

/// A frame-rate text reads back as itself, when what follows it is not a
/// number character.
proof fn lemma_read_number(s: Seq<char>, rest: Seq<char>)
    requires
        number_text(s),
        rest.len() > 0,
        !is_number_char(rest[0]),
    ensures
        read_number(s + rest) == Some((s, rest)),
{
    lemma_number_run(s, rest);
    assert((s + rest).take(s.len() as int) =~= s);
    assert((s + rest).skip(s.len() as int) =~= rest);
}

proof fn lemma_pixel_format_name_plain(pf: PixelFormat)
    ensures
        json_string(pf.name()) == seq!['"'] + pf.name() + seq!['"'],
{
    reveal_strlit("rgba8888");
    reveal_strlit("bgra8888");
    reveal_strlit("yuyv422");
    reveal_strlit("mjpeg");
    let name = pf.name();
    assert(plain_json_text(name));
    json_escape_is_printable(name);
}

/// A format object the encoder writes reads back as its fields.
proof fn lemma_read_format(f: Format, r: Seq<char>)
    requires
        number_text(f.frame_rate@),
    ensures
        read_format(format_json(f) + r) == Some((format_fields(f), r)),
{
    reveal(read_format);
    reveal_strlit("{\"width\":");
    reveal_strlit(",\"height\":");
    reveal_strlit(",\"pixel_format\":\"");
    reveal_strlit("\",\"frame_rate\":");
    reveal_strlit(",\"pixel_format\":");
    reveal_strlit(",\"frame_rate\":");
    reveal_strlit("}");
    let name = f.pixel_format.name();
    lemma_pixel_format_name_plain(f.pixel_format);
    let w = int_decimal(f.width as int);
    let h = int_decimal(f.height as int);
    let s9 = "}"@ + r;
    let s8 = f.frame_rate@ + s9;
    let s7 = ",\"frame_rate\":"@ + s8;
    let s6 = json_string(name) + s7;
    let s5 = ",\"pixel_format\":"@ + s6;
    let s4 = h + s5;
    let s3 = ",\"height\":"@ + s4;
    let s2 = w + s3;
    let s1 = "{\"width\":"@ + s2;
    assert(",\"pixel_format\":\""@ =~= ",\"pixel_format\":"@ + seq!['"']);
    assert("\",\"frame_rate\":"@ =~= seq!['"'] + ",\"frame_rate\":"@);
    assert(format_json(f) + r =~= s1);
    lemma_after_lit("{\"width\":"@, s2);
    lemma_read_int(f.width as int, s3);
    lemma_after_lit(",\"height\":"@, s4);
    lemma_read_int(f.height as int, s5);
    lemma_after_lit(",\"pixel_format\":"@, s6);
    lemma_read_string(name, s7);
    lemma_after_lit(",\"frame_rate\":"@, s8);
    lemma_read_number(f.frame_rate@, s9);
    lemma_after_lit("}"@, r);
}

proof fn lemma_map_values_front<A, B>(s: Seq<A>, f: spec_fn(A) -> B)
    requires
        s.len() >= 1,
    ensures
        s.map_values(f) == seq![f(s[0])] + s.drop_first().map_values(f),
        s.map_values(f).drop_first() == s.drop_first().map_values(f),
        s.map_values(f)[0] == f(s[0]),
{
    assert(s.map_values(f) =~= seq![f(s[0])] + s.drop_first().map_values(f));
    assert(s.map_values(f).drop_first() =~= s.drop_first().map_values(f));
}

proof fn lemma_join_commas_front(items: Seq<Seq<char>>)
    requires
        items.len() >= 2,
    ensures
        join_commas(items) == items[0] + seq![','] + join_commas(items.drop_first()),
    decreases items.len(),
{
    let init = items.drop_last();
    let tail = items.drop_first();
    if items.len() == 2 {
        assert(init.len() == 1 && tail.len() == 1);
        assert(join_commas(init) == init[0]);
        assert(join_commas(tail) == tail[0]);
    } else {
        lemma_join_commas_front(init);
        assert(init.drop_first() =~= tail.drop_last());
        assert(tail.last() == items.last());
        assert(join_commas(tail) == join_commas(tail.drop_last()) + seq![','] + tail.last());
        assert(join_commas(items) == join_commas(init) + seq![','] + items.last());
        assert(join_commas(items) =~= items[0] + seq![','] + join_commas(tail));
    }
}

proof fn lemma_format_json_nonempty(f: Format)
    ensures
        format_json(f).len() > 0,
        format_json(f)[0] == '{',
{
    reveal_strlit("{\"width\":");
}

/// Format objects the encoder writes, joined by commas and closed by `]`,
/// read back as their fields.
proof fn lemma_read_format_items(fs: Seq<Format>, r: Seq<char>)
    requires
        fs.len() >= 1,
        forall|j: int| 0 <= j < fs.len() ==> number_text(#[trigger] fs[j].frame_rate@),
    ensures
        read_format_items(join_commas(fs.map_values(|f: Format| format_json(f))) + seq![']'] + r) == Some(
            (fs.map_values(|f: Format| format_fields(f)), r),
        ),
    decreases fs.len(),
{
    let items = fs.map_values(|f: Format| format_json(f));
    let t = join_commas(items) + seq![']'] + r;
    let first = format_json(fs[0]);
    assert(number_text(fs[0].frame_rate@));
    lemma_format_json_nonempty(fs[0]);
    if fs.len() == 1 {
        assert(join_commas(items) == items[0]);
        let rest = seq![']'] + r;
        assert(t =~= first + rest);
        lemma_read_format(fs[0], rest);
        assert(rest.drop_first() =~= r);
        assert(fs.map_values(|f: Format| format_fields(f)) =~= seq![format_fields(fs[0])]);
    } else {
        lemma_join_commas_front(items);
        let tail = fs.drop_first();
        assert(items.drop_first() =~= tail.map_values(|f: Format| format_json(f)));
        let x = join_commas(tail.map_values(|f: Format| format_json(f))) + seq![']'] + r;
        let rest = seq![','] + x;
        assert(t =~= first + rest);
        lemma_read_format(fs[0], rest);
        assert(rest.drop_first() =~= x);
        assert forall|j: int| 0 <= j < tail.len() implies number_text(#[trigger] tail[j].frame_rate@) by {
            assert(tail[j] == fs[j + 1]);
        }
        lemma_read_format_items(tail, r);
        assert(fs.map_values(|f: Format| format_fields(f)) =~= seq![format_fields(fs[0])] + tail.map_values(
            |f: Format| format_fields(f),
        ));
    }
}

/// A JSON array of format objects the encoder writes reads back as their
/// fields.
proof fn lemma_read_format_list(fs: Seq<Format>, r: Seq<char>)
    requires
        forall|j: int| 0 <= j < fs.len() ==> number_text(#[trigger] fs[j].frame_rate@),
    ensures
        read_format_list(seq!['['] + join_commas(fs.map_values(|f: Format| format_json(f))) + seq![']'] + r) == Some(
            (fs.map_values(|f: Format| format_fields(f)), r),
        ),
{
    reveal_strlit("[");
    let items = fs.map_values(|f: Format| format_json(f));
    let body = join_commas(items) + seq![']'] + r;
    let t = seq!['['] + join_commas(items) + seq![']'] + r;
    assert("["@ =~= seq!['[']);
    assert(t =~= "["@ + body);
    lemma_after_lit("["@, body);
    if fs.len() == 0 {
        assert(join_commas(items) == Seq::<char>::empty());
        assert(body =~= seq![']'] + r);
        assert(body.drop_first() =~= r);
        assert(fs.map_values(|f: Format| format_fields(f)) =~= Seq::<FormatFields>::empty());
    } else {
        lemma_format_json_nonempty(fs[0]);
        if fs.len() == 1 {
            assert(join_commas(items) == items[0]);
        } else {
            lemma_join_commas_front(items);
        }
        assert(body[0] == '{');
        lemma_read_format_items(fs, r);
    }
}

/// Every frame-rate text of `d` reads back as a JSON number.
pub open spec fn rates_are_numbers(d: Device) -> bool {
    forall|j: int| 0 <= j < d.formats@.len() ==> number_text(#[trigger] d.formats@[j].frame_rate@)
}

proof fn lemma_device_json_nonempty(d: Device)
    ensures
        device_json(d).len() > 0,
        device_json(d)[0] == '{',
{
    reveal_strlit("{\"id\":");
}

/// A device object the encoder writes reads back as its fields.
proof fn lemma_read_device(d: Device, r: Seq<char>)
    requires
        rates_are_numbers(d),
    ensures
        read_device(device_json(d) + r) == Some((device_fields(d), r)),
{
    reveal(read_device);
    reveal_strlit("{\"id\":");
    reveal_strlit(",\"name\":");
    reveal_strlit(",\"facing\":");
    reveal_strlit(",\"formats\":[");
    reveal_strlit(",\"formats\":");
    reveal_strlit("]}");
    reveal_strlit("}");
    let fs = d.formats@;
    let list = join_commas(fs.map_values(|f: Format| format_json(f)));
    let s9 = "}"@ + r;
    let s8 = seq!['['] + list + seq![']'] + s9;
    let s7 = ",\"formats\":"@ + s8;
    let s6 = json_string(d.facing@) + s7;
    let s5 = ",\"facing\":"@ + s6;
    let s4 = json_string(d.name@) + s5;
    let s3 = ",\"name\":"@ + s4;
    let s2 = json_string(d.id@) + s3;
    let s1 = "{\"id\":"@ + s2;
    assert(",\"formats\":["@ =~= ",\"formats\":"@ + seq!['[']);
    assert("]}"@ =~= seq![']'] + "}"@);
    assert(device_json(d) + r =~= s1);
    lemma_after_lit("{\"id\":"@, s2);
    lemma_read_string(d.id@, s3);
    lemma_after_lit(",\"name\":"@, s4);
    lemma_read_string(d.name@, s5);
    lemma_after_lit(",\"facing\":"@, s6);
    lemma_read_string(d.facing@, s7);
    lemma_after_lit(",\"formats\":"@, s8);
    lemma_read_format_list(fs, s9);
    lemma_after_lit("}"@, r);
}

/// Device objects the encoder writes, joined by commas and closed by `]`,
/// read back as their fields.
proof fn lemma_read_device_items(ds: Seq<Device>, r: Seq<char>)
    requires
        ds.len() >= 1,
        forall|i: int| 0 <= i < ds.len() ==> rates_are_numbers(#[trigger] ds[i]),
    ensures
        read_device_items(join_commas(ds.map_values(|d: Device| device_json(d))) + seq![']'] + r) == Some(
            (ds.map_values(|d: Device| device_fields(d)), r),
        ),
    decreases ds.len(),
{
    let to_json = |d: Device| device_json(d);
    let to_fields = |d: Device| device_fields(d);
    let items = ds.map_values(to_json);
    let t = join_commas(items) + seq![']'] + r;
    let first = device_json(ds[0]);
    let tail = ds.drop_first();
    assert(rates_are_numbers(ds[0]));
    lemma_device_json_nonempty(ds[0]);
    lemma_map_values_front(ds, to_json);
    lemma_map_values_front(ds, to_fields);
    if ds.len() == 1 {
        assert(join_commas(items) == items[0]);
        let rest = seq![']'] + r;
        assert(t =~= first + rest);
        lemma_read_device(ds[0], rest);
        assert(rest.drop_first() =~= r);
        assert(tail.map_values(to_fields) =~= Seq::<DeviceFields>::empty());
    } else {
        lemma_join_commas_front(items);
        let x = join_commas(tail.map_values(to_json)) + seq![']'] + r;
        let rest = seq![','] + x;
        assert(t =~= first + rest);
        lemma_read_device(ds[0], rest);
        assert(rest.drop_first() =~= x);
        assert forall|i: int| 0 <= i < tail.len() implies rates_are_numbers(#[trigger] tail[i]) by {
            assert(tail[i] == ds[i + 1]);
        }
        lemma_read_device_items(tail, r);
    }
}

/// The device-list document reads back field by field: reading the JSON
/// that `devices_to_json` writes gives, for every device in order, its id,
/// name and facing, and for every one of its formats in order, its width,
/// height, pixel-format name and frame-rate text, with nothing left over.
/// This holds whenever every frame-rate text is a JSON number, as a finite
/// floating-point rate renders.
pub proof fn device_list_reads_back(devices: Seq<Device>)
    requires
        forall|i: int| 0 <= i < devices.len() ==> rates_are_numbers(#[trigger] devices[i]),
    ensures
        read_device_list(devices_json(devices)) == Some(devices.map_values(|d: Device| device_fields(d))),
{
    reveal_strlit("[");
    reveal_strlit("]");
    let items = devices.map_values(|d: Device| device_json(d));
    let body = join_commas(items) + seq![']'];
    assert("]"@ =~= seq![']']);
    assert(devices_json(devices) =~= "["@ + body);
    lemma_after_lit("["@, body);
    if devices.len() == 0 {
        assert(join_commas(items) == Seq::<char>::empty());
        assert(body =~= seq![']']);
        assert(body.drop_first() =~= Seq::<char>::empty());
        assert(devices.map_values(|d: Device| device_fields(d)) =~= Seq::<DeviceFields>::empty());
    } else {
        lemma_device_json_nonempty(devices[0]);
        if devices.len() == 1 {
            assert(join_commas(items) == items[0]);
        } else {
            lemma_join_commas_front(items);
        }
        assert(body[0] == '{');
        assert(body =~= join_commas(items) + seq![']'] + Seq::<char>::empty());
        lemma_read_device_items(devices, Seq::<char>::empty());
    }
}

} // verus!
