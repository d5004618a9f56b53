//! X11 property decoding: the XSETTINGS blob a settings manager publishes,
//! `WM_CLASS`, and text properties.
use vstd::prelude::*;
use vstd::utf8::{decode_utf8, valid_utf8};
use crate::text::{chars_eq, chars_of, string_of, strip_end, is_char, trim_end_char_chars, first_index_of, find_char_from};

verus! {

/// Bytes needed to pad a field of `n` bytes to a four byte boundary.
pub open spec fn pad4(n: int) -> int {
    (4 - n % 4) % 4
}

/// Number of bytes needed to pad `length` up to a four byte boundary.
pub fn alignment_padding(length: usize) -> (pad: usize)
    ensures
        pad == pad4(length as int),
        pad < 4,
        (length + pad) % 4 == 0,
{
    (4 - (length % 4)) % 4
}

/// `std::str::from_utf8`, as an owned string: `Some` exactly when the bytes
/// are valid UTF-8, holding the characters they encode.
#[verifier::external_body]
pub(crate) fn utf8_string(bytes: &[u8]) -> (r: Option<String>)
    ensures
        r is Some <==> valid_utf8(bytes@),
        r matches Some(s) ==> s@ == decode_utf8(bytes@),
{
    std::str::from_utf8(bytes).ok().map(|text| text.to_owned())
}

/// A 32-bit field at `at`, in the blob's byte order.
pub open spec fn field32(data: Seq<u8>, at: int, big: bool) -> int {
    if big {
        data[at] * 0x1000000 + data[at + 1] * 0x10000 + data[at + 2] * 0x100 + data[at + 3]
    } else {
        data[at + 3] * 0x1000000 + data[at + 2] * 0x10000 + data[at + 1] * 0x100 + data[at]
    }
}

/// A 16-bit field at `at`, in the blob's byte order.
pub open spec fn field16(data: Seq<u8>, at: int, big: bool) -> int {
    if big {
        data[at] * 0x100 + data[at + 1]
    } else {
        data[at + 1] * 0x100 + data[at]
    }
}

/// The value of the string setting `key` among the `count` records that
/// start at byte `pos`, or `None` when it is absent or a record is malformed.
///
/// A record is: type byte, unused byte, 16-bit name length, the name padded
/// to four bytes, a 32-bit serial, then the value: four bytes for an
/// integer (type 0), eight for a colour (type 2), and for a string (type 1)
/// a 32-bit length and the text padded to four bytes.
pub open spec fn settings_scan(data: Seq<u8>, big: bool, pos: int, count: nat, key: Seq<char>) -> Option<
    Seq<char>,
>
    decreases count,
{
    if count == 0 || pos + 4 > data.len() {
        None
    } else {
        let kind = data[pos];
        let name_len = field16(data, pos + 2, big);
        let name_at = pos + 4;
        if name_at + name_len > data.len() || !valid_utf8(data.subrange(name_at, name_at + name_len)) {
            None
        } else {
            let name = decode_utf8(data.subrange(name_at, name_at + name_len));
            let value_at = name_at + name_len + pad4(name_len) + 4;
            if kind == 0 {
                settings_scan(data, big, value_at + 4, (count - 1) as nat, key)
            } else if kind == 2 {
                settings_scan(data, big, value_at + 8, (count - 1) as nat, key)
            } else if kind == 1 {
                if value_at + 4 > data.len() {
                    None
                } else {
                    let text_len = field32(data, value_at, big);
                    let text_at = value_at + 4;
                    if text_at + text_len > data.len() || !valid_utf8(
                        data.subrange(text_at, text_at + text_len),
                    ) {
                        None
                    } else if name == key {
                        Some(decode_utf8(data.subrange(text_at, text_at + text_len)))
                    } else {
                        settings_scan(
                            data,
                            big,
                            text_at + text_len + pad4(text_len),
                            (count - 1) as nat,
                            key,
                        )
                    }
                }
            } else {
                None
            }
        }
    }
}

/// The string setting `key` in an `_XSETTINGS_SETTINGS` value: a header of a
/// byte-order byte (0 little, 1 big endian), three unused bytes, a serial and
/// a record count, followed by the records.
pub open spec fn xsettings_lookup(data: Seq<u8>, key: Seq<char>) -> Option<Seq<char>> {
    if data.len() < 12 || data[0] > 1 {
        None
    } else {
        settings_scan(data, data[0] == 1, 12, field32(data, 8, data[0] == 1) as nat, key)
    }
}

proof fn lemma_scan_past_end(data: Seq<u8>, big: bool, pos: int, count: nat, key: Seq<char>)
    requires
        pos > data.len(),
    ensures
        settings_scan(data, big, pos, count, key) is None,
{
}

fn read32(data: &[u8], at: usize, big: bool) -> (v: u32)
    requires
        at + 4 <= data.len(),
    ensures
        v == field32(data@, at as int, big),
{
    let b0 = data[at] as u32;
    let b1 = data[at + 1] as u32;
    let b2 = data[at + 2] as u32;
    let b3 = data[at + 3] as u32;
    if big {
        b0 * 0x1000000 + b1 * 0x10000 + b2 * 0x100 + b3
    } else {
        b3 * 0x1000000 + b2 * 0x10000 + b1 * 0x100 + b0
    }
}

fn read16(data: &[u8], at: usize, big: bool) -> (v: u16)
    requires
        at + 2 <= data.len(),
    ensures
        v == field16(data@, at as int, big),
{
    let b0 = data[at] as u16;
    let b1 = data[at + 1] as u16;
    if big {
        b0 * 0x100 + b1
    } else {
        b1 * 0x100 + b0
    }
}

fn utf8_of_range(data: &[u8], from: usize, to: usize) -> (r: Option<String>)
    requires
        from <= to <= data.len(),
    ensures
        r is Some <==> valid_utf8(data@.subrange(from as int, to as int)),
        r matches Some(s) ==> s@ == decode_utf8(data@.subrange(from as int, to as int)),
{
    let mut part: Vec<u8> = Vec::new();
    let mut i = from;
    while i < to
        invariant
            from <= i <= to <= data.len(),
            part@ == data@.subrange(from as int, i as int),
        decreases to - i,
    {
        part.push(data[i]);
        assert(data@.subrange(from as int, i as int).push(data@[i as int]) =~= data@.subrange(
            from as int,
            i + 1,
        ));
        i = i + 1;
    }
    utf8_string(part.as_slice())
}

/// Find a string setting inside an `_XSETTINGS_SETTINGS` value.
pub fn xsettings_string_value(data: &[u8], key: &str) -> (r: Option<String>)
    ensures
        match r {
            Some(s) => xsettings_lookup(data@, key@) == Some(s@),
            None => xsettings_lookup(data@, key@) is None,
        },
{
    if data.len() < 12 {
        return None;
    }
    let big = if data[0] == 0 {
        false
    } else if data[0] == 1 {
        true
    } else {
        return None;
    };
    let key_chars = chars_of(key);
    let count = read32(data, 8, big);
    let mut remaining: u32 = count;
    let mut position: usize = 12;
    let len = data.len();
    while remaining > 0
        invariant
            len == data.len(),
            position <= len,
            xsettings_lookup(data@, key@) == settings_scan(
                data@,
                big,
                position as int,
                remaining as nat,
                key@,
            ),
            key_chars@ == key@,
        decreases remaining,
    {
        proof {
            reveal_with_fuel(settings_scan, 1);
        }
        if len - position < 4 {
            return None;
        }
        let kind = data[position];
        let name_len = read16(data, position + 2, big) as usize;
        let name_at = position + 4;
        if len - name_at < name_len {
            return None;
        }
        let name = match utf8_of_range(data, name_at, name_at + name_len) {
            Some(name) => name,
            None => return None,
        };
        let name_end = name_at + name_len;
        let pad = alignment_padding(name_len);
        if len - name_end < pad + 4 {
            proof {
                lemma_scan_past_end(data@, big, name_end + pad + 4 + 4, (remaining - 1) as nat, key@);
                lemma_scan_past_end(data@, big, name_end + pad + 4 + 8, (remaining - 1) as nat, key@);
            }
            return None;
        }
        let value_at = name_end + pad + 4;
        if kind == 0 {
            if len - value_at < 4 {
                proof {
                    if remaining > 1 {
                        lemma_scan_past_end(data@, big, value_at + 4, (remaining - 1) as nat, key@);
                    }
                }
                return None;
            }
            position = value_at + 4;
        } else if kind == 2 {
            if len - value_at < 8 {
                proof {
                    if remaining > 1 {
                        lemma_scan_past_end(data@, big, value_at + 8, (remaining - 1) as nat, key@);
                    }
                }
                return None;
            }
            position = value_at + 8;
        } else if kind == 1 {
            if len - value_at < 4 {
                return None;
            }
            let text_len = read32(data, value_at, big) as usize;
            let text_at = value_at + 4;
            if len - text_at < text_len {
                return None;
            }
            let value = match utf8_of_range(data, text_at, text_at + text_len) {
                Some(value) => value,
                None => return None,
            };
            let name_chars = chars_of(name.as_str());
            if chars_eq(&name_chars, &key_chars) {
                return Some(value);
            }
            let text_end = text_at + text_len;
            let text_pad = alignment_padding(text_len);
            if len - text_end < text_pad {
                proof {
                    if remaining > 1 {
                        lemma_scan_past_end(data@, big, text_end + text_pad, (remaining - 1) as nat, key@);
                    }
                }
                return None;
            }
            position = text_end + text_pad;
        } else {
            return None;
        }
        remaining = remaining - 1;
    }
    None
}

/// `WM_CLASS` holds the instance and class names as two NUL-terminated
/// strings; `(instance, class)` as the window manager module reads them.
///
/// A value without a class reports its single name as the class.
pub open spec fn class_parts(value: Seq<char>) -> (Seq<char>, Seq<char>) {
    let first_nul = first_index_of(value, '\0');
    let instance = if first_nul < 0 {
        value
    } else {
        value.take(first_nul)
    };
    let rest = if first_nul < 0 {
        Seq::<char>::empty()
    } else {
        value.skip(first_nul + 1)
    };
    let second_nul = first_index_of(rest, '\0');
    let class = if first_nul < 0 {
        Seq::<char>::empty()
    } else if second_nul < 0 {
        rest
    } else {
        rest.take(second_nul)
    };
    if class.len() == 0 {
        (Seq::<char>::empty(), instance)
    } else {
        (instance, class)
    }
}

/// Split a `WM_CLASS` value into `(instance, class)`.
pub fn window_class_parts(value: &str) -> (r: (String, String))
    ensures
        (r.0@, r.1@) == class_parts(value@),
{
    let chars = chars_of(value);
    assert(chars@.skip(0) =~= chars@);
    let first = find_char_from(&chars, '\0', 0);
    let (instance, class) = match first {
        None => {
            assert(chars@.subrange(0, chars.len() as int) =~= chars@);
            (crate::text::slice_chars(&chars, 0, chars.len()), Vec::new())
        },
        Some(i) => {
            let instance = crate::text::slice_chars(&chars, 0, i);
            assert(chars@.subrange(0, i as int) =~= chars@.take(i as int));
            let second = find_char_from(&chars, '\0', i + 1);
            let class = match second {
                None => crate::text::slice_chars(&chars, i + 1, chars.len()),
                Some(j) => crate::text::slice_chars(&chars, i + 1, j),
            };
            proof {
                let rest = chars@.skip(i + 1);
                assert(rest =~= chars@.subrange(i + 1, chars.len() as int));
                if let Some(j) = second {
                    assert(rest.take(j - (i + 1)) =~= chars@.subrange(i + 1, j as int));
                }
            }
            (instance, class)
        },
    };
    if class.len() == 0 {
        (String::new(), string_of(&instance))
    } else {
        (string_of(&instance), string_of(&class))
    }
}

/// The text of a property value: its bytes decoded, with the trailing NUL
/// terminators removed; `None` when nothing is left.
pub open spec fn property_text_of(decoded: Seq<char>) -> Option<Seq<char>> {
    let text = strip_end(decoded, is_char('\0'));
    if text.len() == 0 {
        None
    } else {
        Some(text)
    }
}

/// What `String::from_utf8_lossy` returns: the bytes decoded as UTF-8, with
/// each invalid sequence replaced by U+FFFD.
pub uninterp spec fn utf8_lossy(bytes: Seq<u8>) -> Seq<char>;

/// `String::from_utf8_lossy`. Its documentation promises that valid UTF-8
/// comes back as the text it encodes; how invalid sequences are replaced is
/// left to the name.
#[verifier::external_body]
pub(crate) fn decode_lossy(bytes: &[u8]) -> (s: String)
    ensures
        s@ == utf8_lossy(bytes@),
        valid_utf8(bytes@) ==> s@ == decode_utf8(bytes@),
{
    String::from_utf8_lossy(bytes).into_owned()
}

/// UTF-8/STRING property value, trimmed of its NUL terminator.
pub fn property_text(bytes: &[u8]) -> (r: Option<String>)
    ensures
        match r {
            Some(s) => property_text_of(utf8_lossy(bytes@)) == Some(s@),
            None => property_text_of(utf8_lossy(bytes@)) is None,
        },
        valid_utf8(bytes@) ==> match r {
            Some(s) => property_text_of(decode_utf8(bytes@)) == Some(s@),
            None => property_text_of(decode_utf8(bytes@)) is None,
        },
{
    let decoded = decode_lossy(bytes);
    let chars = chars_of(decoded.as_str());
    let text = trim_end_char_chars(&chars, '\0');
    assert(is_char('\0') =~= (|c: char| c == '\0'));
    if text.len() == 0 {
        None
    } else {
        Some(string_of(&text))
    }
}

} // verus!
