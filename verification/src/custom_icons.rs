//! User-chosen application icons: the keys they are stored under, the
//! files that hold them, their manifest, and how a chosen image becomes
//! the stored PNG.
use vstd::prelude::*;
use crate::text::{
    chars_of, string_of, owned, prefixed, extend_chars, slice_chars, has_prefix, starts_with,
    first_index_of, find_char_from, to_lowercase, lowercase, signed_decimal, signed_decimal_chars,
    str_eq, lemma_first_index_bounds,
};
use crate::textmap::TextMap;
use crate::path::{
    extension, extension_of, file_stem, stem_of, file_name, last_index_of, path_extension, path_file_stem,
    join_path, lemma_file_name_of_join, lemma_last_index_concat,
};
use crate::imaging::{
    RgbaImage, ResizeFilter, resize_decoded, resized_decoded, overlay, overlaid, encode_png_bytes, png_encoding,
    decode_image, decoded_image, reencode_png, png_reencoding, base64_decode, base64_decoded, data_uri, data_uri_of, base64_of,
};

verus! {

broadcast use vstd::string::group_string_axioms;

/// Characters that cannot stand in a file name Bloom writes.
pub open spec fn unsafe_filename_char(c: char) -> bool {
    c == ':' || c == '\\' || c == '/' || c == '*' || c == '?' || c == '"' || c == '<' || c == '>'
        || c == '|'
}

/// A key with every unsafe character replaced by `_`.
pub open spec fn sanitized(key: Seq<char>) -> Seq<char> {
    key.map_values(|c: char| if unsafe_filename_char(c) { '_' } else { c })
}

/// Icon keys arrive from the interface and can contain path separators, so
/// they are flattened before being used as a file name: the result has the
/// same length and no separator or other unsafe character.
pub fn sanitize_filename(key: &str) -> (r: String)
    ensures
        r@ == sanitized(key@),
        r@.len() == key@.len(),
        forall|i: int| 0 <= i < r@.len() ==> !unsafe_filename_char(#[trigger] r@[i]),
{
    let chars = chars_of(key);
    let mut out: Vec<char> = Vec::new();
    let mut i: usize = 0;
    while i < chars.len()
        invariant
            i <= chars.len(),
            chars@ == key@,
            out@ == sanitized(key@).take(i as int),
        decreases chars.len() - i,
    {
        let c = chars[i];
        let safe = if c == ':' || c == '\\' || c == '/' || c == '*' || c == '?' || c == '"' || c == '<'
            || c == '>' || c == '|' {
            '_'
        } else {
            c
        };
        out.push(safe);
        assert(out@ =~= sanitized(key@).take(i + 1));
        i = i + 1;
    }
    assert(sanitized(key@).take(chars.len() as int) =~= sanitized(key@));
    string_of(&out)
}

/// The file a custom icon is stored in: the flattened key with `.png`, in
/// the icon directory.
pub open spec fn custom_icon_path(dir: Seq<char>, key: Seq<char>) -> Seq<char> {
    join_path(dir, sanitized(key) + ".png"@)
}

/// The file a custom icon under `key` lives in, inside `dir`.
pub fn custom_icon_file(dir: &str, key: &str) -> (r: String)
    ensures
        r@ == custom_icon_path(dir@, key@),
{
    proof {
        reveal_strlit(".png");
    }
    let mut out = chars_of(dir);
    if out.len() > 0 && out[out.len() - 1] != '/' {
        out.push('/');
    }
    let name = sanitize_filename(key);
    let name_chars = chars_of(name.as_str());
    extend_chars(&mut out, &name_chars);
    out.push('.');
    out.push('p');
    out.push('n');
    out.push('g');
    proof {
        let file = sanitized(key@) + ".png"@;
        if file.len() > 0 && file[0] == '/' {
            if key@.len() > 0 {
                assert(file[0] == sanitized(key@)[0]);
            } else {
                assert(file[0] == '.');
            }
        }
    }
    assert(out@ =~= custom_icon_path(dir@, key@));
    string_of(&out)
}

/// The keys an application's custom icon may be stored under, most specific
/// first: the entry path with its lowercase name, the entry path with its
/// window id, and the entry path alone.
pub open spec fn icon_keys_of(path: Seq<char>, name: Option<Seq<char>>, hwnd: Option<isize>) -> Seq<Seq<char>> {
    (match name {
        Some(n) => seq![path + seq![':'] + lowercase(n)],
        None => Seq::empty(),
    }) + (match hwnd {
        Some(h) => seq![path + seq!['-'] + signed_decimal(h as int)],
        None => Seq::empty(),
    }) + seq![path]
}

/// The views of some strings.
pub open spec fn texts(v: Seq<String>) -> Seq<Seq<char>> {
    v.map_values(|s: String| s@)
}

/// The interface identifies an application's icon with one of a few key
/// shapes, so a custom icon is looked up under all of them, most specific
/// first.
pub fn icon_keys(path: &str, name: Option<&str>, hwnd: Option<isize>) -> (r: Vec<String>)
    ensures
        texts(r@) == icon_keys_of(
            path@,
            match name {
                Some(n) => Some(n@),
                None => None,
            },
            hwnd,
        ),
{
    let ghost name_part: Seq<Seq<char>> = match name {
        Some(n) => seq![path@ + seq![':'] + lowercase(n@)],
        None => Seq::empty(),
    };
    let ghost window_part: Seq<Seq<char>> = match hwnd {
        Some(h) => seq![path@ + seq!['-'] + signed_decimal(h as int)],
        None => Seq::empty(),
    };
    let mut keys: Vec<String> = Vec::new();
    if let Some(n) = name {
        let mut k = chars_of(path);
        k.push(':');
        let lower = to_lowercase(n);
        let lower_chars = chars_of(lower.as_str());
        extend_chars(&mut k, &lower_chars);
        assert(k@ =~= path@ + seq![':'] + lowercase(n@));
        keys.push(string_of(&k));
        assert(texts(keys@) =~= name_part);
    } else {
        assert(texts(keys@) =~= name_part);
    }
    let ghost after_name = keys@;
    if let Some(h) = hwnd {
        let mut k = chars_of(path);
        k.push('-');
        let wide = h as i64;
        assert(wide as int == h as int);
        let digits = signed_decimal_chars(wide);
        extend_chars(&mut k, &digits);
        assert(k@ =~= path@ + seq!['-'] + signed_decimal(h as int));
        keys.push(string_of(&k));
        assert(keys@.drop_last() =~= after_name);
        assert(texts(keys@) =~= name_part + window_part);
    } else {
        assert(texts(keys@) =~= name_part + window_part);
    }
    keys.push(owned(path));
    assert(texts(keys@) =~= name_part + window_part + seq![path@]);
    keys
}

/// The message for a feature the Linux backend does not offer yet.
pub fn unsupported(feature: &str) -> (r: String)
    ensures
        r@ == feature@ + " is not available yet on Linux; Bloom remains usable without it"@,
{
    prefixed_after(feature, " is not available yet on Linux; Bloom remains usable without it")
}

fn prefixed_after(head: &str, tail: &str) -> (r: String)
    ensures
        r@ == head@ + tail@,
{
    prefixed(head, tail)
}

/// The platform the backend runs on.
pub fn get_platform() -> (r: String)
    ensures
        r@ == "linux"@,
{
    owned("linux")
}

/// Opening the start menu is refused, with the reason; any other name is
/// an application to launch (`None`).
pub fn open_app_refusal(app_name: &str) -> (r: Option<String>)
    ensures
        app_name@ == "start"@ ==> (r matches Some(m) && m@ == "The Cinnamon application-menu integration"@
            + " is not available yet on Linux; Bloom remains usable without it"@),
        app_name@ != "start"@ ==> r is None,
{
    if str_eq(app_name, "start") {
        Some(unsupported("The Cinnamon application-menu integration"))
    } else {
        None
    }
}

/// The base64 payload of the image the interface sends: the text between
/// the first and second comma of a `data:` URI (or to its end), or the whole
/// text when it is not a data URI; `None` for a data URI without a comma.
pub open spec fn icon_payload_of(data: Seq<char>) -> Option<Seq<char>> {
    if starts_with(data, "data:"@) {
        let comma = first_index_of(data, ',');
        if comma < 0 {
            None
        } else {
            let rest = data.skip(comma + 1);
            let end = first_index_of(rest, ',');
            if end < 0 {
                Some(rest)
            } else {
                Some(rest.take(end))
            }
        }
    } else {
        Some(data)
    }
}

/// Extract the base64 payload from what the interface sends.
pub fn icon_payload(icon_data: &str) -> (r: Option<String>)
    ensures
        match r {
            Some(p) => icon_payload_of(icon_data@) == Some(p@),
            None => icon_payload_of(icon_data@) is None,
        },
{
    proof {
        reveal_strlit("data:");
    }
    let chars = chars_of(icon_data);
    let scheme = chars_of("data:");
    if !has_prefix(&chars, &scheme) {
        return Some(owned(icon_data));
    }
    assert(chars@.skip(0) =~= chars@);
    let comma = match find_char_from(&chars, ',', 0) {
        Some(i) => i,
        None => return None,
    };
    let start = comma + 1;
    let end = match find_char_from(&chars, ',', start) {
        Some(j) => j,
        None => chars.len(),
    };
    let payload = slice_chars(&chars, start, end);
    proof {
        let rest = icon_data@.skip(comma + 1);
        assert(chars@.skip(start as int) =~= rest);
        if end < chars.len() {
            assert(payload@ =~= rest.take(end - start));
        } else {
            assert(payload@ =~= rest);
        }
    }
    Some(string_of(&payload))
}

/// Icons are stored at most this many pixels on a side.
pub const ICON_TARGET: u32 = 256;

/// Custom icons smaller than this on either side are refused.
pub const ICON_MINIMUM: u32 = 16;

/// An oversized icon as it is stored, before encoding: the image decoded
/// from `raw`, scaled to fit a 256x256 transparent canvas and centred on it.
pub open spec fn fitted_icon(raw: Seq<u8>) -> (u32, u32, Seq<u8>) {
    let (sw, sh, sp) = resized_decoded(raw, ICON_TARGET, ICON_TARGET, ResizeFilter::Lanczos3);
    (
        ICON_TARGET,
        ICON_TARGET,
        overlaid(
            ICON_TARGET,
            ICON_TARGET,
            Seq::new(262144, |i: int| 0u8),
            sw,
            sh,
            sp,
            ((ICON_TARGET - sw) / 2) as i64,
            ((ICON_TARGET - sh) / 2) as i64,
        ),
    )
}

/// The PNG a custom icon is stored as, or the message saying why the
/// image the interface sent cannot be used. An icon that fits is
/// re-encoded as it is, in its own colour type; a larger one is fitted
/// onto the canvas first.
pub open spec fn custom_icon_png(icon_data: Seq<char>) -> Result<Seq<u8>, Seq<char>> {
    match icon_payload_of(icon_data) {
        None => Err("Invalid data URI"@),
        Some(payload) => match base64_decoded(payload) {
            Err(e) => Err("Invalid base64: "@ + e),
            Ok(raw) => match decoded_image(raw) {
                Err(e) => Err("Invalid image: "@ + e),
                Ok((w, h, pixels)) => if w < ICON_MINIMUM || h < ICON_MINIMUM {
                    Err("Icon must be at least 16x16 pixels"@)
                } else if w > ICON_TARGET || h > ICON_TARGET {
                    let (fw, fh, fp) = fitted_icon(raw);
                    match png_encoding(fw, fh, fp) {
                        Ok(png) => Ok(png),
                        Err(e) => Err("Failed to encode PNG: "@ + e),
                    }
                } else {
                    match png_reencoding(raw) {
                        Ok(png) => Ok(png),
                        Err(e) => Err("Failed to encode PNG: "@ + e),
                    }
                },
            },
        },
    }
}

/// Turn the image the interface sent into the PNG stored for it.
pub fn prepare_custom_icon(icon_data: &str) -> (r: Result<Vec<u8>, String>)
    ensures
        match r {
            Ok(png) => custom_icon_png(icon_data@) == Ok::<Seq<u8>, Seq<char>>(png@),
            Err(e) => custom_icon_png(icon_data@) == Err::<Seq<u8>, Seq<char>>(e@),
        },
{
    let payload = match icon_payload(icon_data) {
        Some(p) => p,
        None => return Err(owned("Invalid data URI")),
    };
    let raw = match base64_decode(payload.as_str()) {
        Ok(bytes) => bytes,
        Err(e) => return Err(prefixed("Invalid base64: ", e.as_str())),
    };
    let image = match decode_image(&raw) {
        Ok(image) => image,
        Err(e) => return Err(prefixed("Invalid image: ", e.as_str())),
    };
    if image.width < ICON_MINIMUM || image.height < ICON_MINIMUM {
        return Err(owned("Icon must be at least 16x16 pixels"));
    }
    let encoded = if image.width > ICON_TARGET || image.height > ICON_TARGET {
        let scaled = resize_decoded(&raw, ICON_TARGET, ICON_TARGET, ResizeFilter::Lanczos3);
        let mut canvas = RgbaImage { width: ICON_TARGET, height: ICON_TARGET, pixels: vec![0u8; 262144] };
        assert(canvas.pixels@ =~= Seq::new(262144, |i: int| 0u8));
        let x = ((ICON_TARGET - scaled.width) / 2) as i64;
        let y = ((ICON_TARGET - scaled.height) / 2) as i64;
        overlay(&mut canvas, &scaled, x, y);
        encode_png_bytes(&canvas)
    } else {
        reencode_png(&raw)
    };
    match encoded {
        Ok(png) => Ok(png),
        Err(e) => Err(prefixed("Failed to encode PNG: ", e.as_str())),
    }
}

/// The icon a dock item shows: a saved custom icon always wins; only
/// without one is `theme` asked for the desktop theme's icon.
pub fn icon_for_item<F: FnOnce() -> Option<String>>(custom: Option<String>, theme: F) -> (r: Option<String>)
    requires
        theme.requires(()),
    ensures
        custom is Some ==> r == custom,
        custom is None ==> theme.ensures((), r),
{
    match custom {
        Some(icon) => Some(icon),
        None => theme(),
    }
}

/// A stored icon as the data URI the interface renders.
pub fn icon_data_uri(png: &[u8]) -> (r: String)
    ensures
        r@ == data_uri_of("image/png"@, base64_of(png@)),
{
    data_uri("image/png", png)
}

/// Remember which key a stored icon was given, under its file's stem.
pub fn record_custom_icon(manifest: &mut TextMap<String>, cache_key: &str)
    ensures
        final(manifest)@ == old(manifest)@.insert(sanitized(cache_key@), cache_key@),
{
    let file = sanitize_filename(cache_key);
    manifest.insert(file, owned(cache_key));
}

/// Forget every key shape an application's icon could have been stored
/// under (its name and path, and its path alone); window-specific icons
/// are separate keys and stay.
pub fn forget_custom_icons(manifest: &mut TextMap<String>, path: &str, name: Option<&str>) -> (keys: Vec<String>)
    ensures
        texts(keys@) == icon_keys_of(
            path@,
            match name {
                Some(n) => Some(n@),
                None => None,
            },
            None,
        ),
        final(manifest)@ == old(manifest)@.remove_keys(
            Set::new(|f: Seq<char>| exists|i: int| 0 <= i < keys@.len() && f == sanitized(#[trigger] keys@[i]@)),
        ),
{
    let keys = icon_keys(path, name, None);
    let ghost start = manifest@;
    let mut i: usize = 0;
    while i < keys.len()
        invariant
            i <= keys.len(),
            manifest@ == start.remove_keys(
                Set::new(|f: Seq<char>| exists|j: int| 0 <= j < i && f == sanitized(#[trigger] keys@[j]@)),
            ),
        decreases keys.len() - i,
    {
        let file = sanitize_filename(keys[i].as_str());
        manifest.remove(file.as_str());
        proof {
            let before = Set::new(|f: Seq<char>| exists|j: int| 0 <= j < i && f == sanitized(#[trigger] keys@[j]@));
            let after = Set::new(|f: Seq<char>| exists|j: int| 0 <= j < i + 1 && f == sanitized(#[trigger] keys@[j]@));
            assert(after =~= before.insert(sanitized(keys@[i as int]@)));
            assert(start.remove_keys(before).remove(sanitized(keys@[i as int]@)) =~= start.remove_keys(after));
        }
        i = i + 1;
    }
    keys
}

/// The key a stored icon file is reported under: the one the interface gave
/// it when the manifest remembers it, otherwise the file's stem; files that
/// are not PNGs are not icons.
pub open spec fn reported_key(file: Seq<char>, manifest: Map<Seq<char>, Seq<char>>) -> Option<Seq<char>> {
    if extension(file) != Some("png"@) {
        None
    } else {
        match file_stem(file) {
            None => None,
            Some(stem) => if manifest.contains_key(stem) {
                Some(manifest[stem])
            } else {
                Some(stem)
            },
        }
    }
}

/// The key under which a file in the icon directory is reported.
pub fn custom_icon_key(file: &str, manifest: &TextMap<String>) -> (r: Option<String>)
    ensures
        match r {
            Some(k) => reported_key(file@, manifest@) == Some(k@),
            None => reported_key(file@, manifest@) is None,
        },
{
    proof {
        reveal_strlit("png");
    }
    let chars = chars_of(file);
    let png = chars_of("png");
    match path_extension(&chars) {
        Some(ext) => {
            if !crate::text::chars_eq(&ext, &png) {
                return None;
            }
        },
        None => return None,
    }
    match path_file_stem(&chars) {
        None => None,
        Some(stem) => {
            let stem_text = string_of(&stem);
            match manifest.get(stem_text.as_str()) {
                Some(key) => Some(owned(key.as_str())),
                None => Some(stem_text),
            }
        },
    }
}

/// A stored icon is reported under the key it was stored with: the file
/// written for a (non-empty) key, read back through the manifest that
/// recorded it, gives the key again, separators and all.
pub proof fn lemma_custom_icon_round_trip(dir: Seq<char>, key: Seq<char>, manifest: Map<Seq<char>, Seq<char>>)
    requires
        key.len() > 0,
    ensures
        reported_key(custom_icon_path(dir, key), manifest.insert(sanitized(key), key)) == Some(key),
{
    reveal_strlit(".png");
    reveal_strlit("png");
    let flat = sanitized(key);
    let name = flat + ".png"@;
    assert(!flat.contains('/')) by {
        if flat.contains('/') {
            let k = choose|k: int| 0 <= k < flat.len() && flat[k] == '/';
            assert(unsafe_filename_char(key[k]) || key[k] == '/');
        }
    }
    assert(!name.contains('/')) by {
        if name.contains('/') {
            let k = choose|k: int| 0 <= k < name.len() && name[k] == '/';
            if k < flat.len() {
                assert(flat[k] == '/');
            }
        }
    }
    assert(name.len() >= 5);
    lemma_file_name_of_join(dir, name);
    assert(file_name(custom_icon_path(dir, key)) == Some(name));
    assert(name =~= (flat + seq!['.']) + "png"@);
    assert(!"png"@.contains('.')) by {
        if "png"@.contains('.') {
            let k = choose|k: int| 0 <= k < "png"@.len() && "png"@[k] == '.';
        }
    }
    lemma_last_index_concat(flat + seq!['.'], "png"@, '.');
    assert((flat + seq!['.']).drop_last() =~= flat);
    assert(last_index_of(flat + seq!['.'], '.') == flat.len());
    assert(last_index_of(name, '.') == flat.len());
    assert(name.skip(flat.len() + 1int) =~= "png"@);
    assert(name.take(flat.len() as int) =~= flat);
}

} // verus!
