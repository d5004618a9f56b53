//! Media transport and the player state Bloom shows, read from MPRIS.
//!
//! The D-Bus traffic happens around this module; here the replies become a
//! snapshot, the players are ranked, changes are detected and transport
//! requests are turned into the MPRIS call they stand for.
use vstd::prelude::*;
use vstd::utf8::{encode_utf8, encode_scalar, has_width_1_encoding, valid_utf8, decode_utf8};
use vstd::string::StringSliceAdditionalSpecFns;
use std::sync::mpsc::Sender;
use crate::text::{owned, chars_of, string_of, extend_chars, has_prefix, slice_chars, ascii_lowercase_chars, ascii_lower_seq, starts_with};
use crate::x11::{decode_lossy, utf8_lossy};
use crate::path::{path_extension, extension};
use crate::types::MediaInfo;
use crate::apps::{views, opt_view};
use crate::text::str_eq;

verus! {

broadcast use vstd::utf8::encode_utf8_valid_utf8, vstd::utf8::encode_utf8_decode_utf8;

/// A transport request from the interface, handed to the thread that owns
/// the active player.
#[derive(Clone, Copy, Debug)]
pub enum MediaCommand {
    PlayPause,
    Next,
    Previous,
    /// Seek to a position, in milliseconds.
    Seek(i64),
}

#[verifier::external_type_specification]
#[verifier::external_body]
#[verifier::reject_recursive_types(T)]
pub struct ExSender<T>(Sender<T>);

/// The way into the media thread: the sending half of its command channel,
/// with a record of every command handed to it.
pub struct MediaChannel {
    sender: Sender<MediaCommand>,
    handed: Ghost<Seq<MediaCommand>>,
}

impl MediaChannel {
    /// The commands handed to the channel, oldest first.
    pub closed spec fn handed_commands(&self) -> Seq<MediaCommand> {
        self.handed@
    }

    /// A channel over `sender` that has carried nothing yet.
    pub fn new(sender: Sender<MediaCommand>) -> (c: Self)
        ensures
            c.handed_commands() == Seq::<MediaCommand>::empty(),
    {
        MediaChannel { sender, handed: Ghost(Seq::empty()) }
    }
}

/// `std::sync::mpsc::Sender::send`, called with `command` itself, which joins
/// the record of handed commands. Whether it was accepted is returned and not
/// stated: it fails once the receiving thread has gone away, which nothing
/// here can observe.
#[verifier::external_body]
fn deliver(channel: &mut MediaChannel, command: MediaCommand) -> (delivered: bool)
    ensures
        final(channel).handed_commands() == old(channel).handed_commands().push(command),
{
    channel.sender.send(command).is_ok()
}

/// Hand `command` to the media thread through `channel`.
pub fn send_through(channel: &mut MediaChannel, command: MediaCommand) -> (r: Result<(), String>)
    ensures
        final(channel).handed_commands() == old(channel).handed_commands().push(command),
        r is Ok || (r matches Err(e) && e@ == "Media control has stopped"@),
{
    if deliver(channel, command) {
        Ok(())
    } else {
        Err(owned("Media control has stopped"))
    }
}

/// Send a transport command to the media thread, which is reachable through
/// `channel` once it has started.
pub fn send(channel: &mut Option<MediaChannel>, command: MediaCommand) -> (r: Result<(), String>)
    ensures
        *old(channel) is None ==> *final(channel) is None,
        *old(channel) is None ==> (r matches Err(e) && e@ == "Media control is not available"@),
        *old(channel) is Some ==> (*final(channel) is Some
            && final(channel)->0.handed_commands() == old(channel)->0.handed_commands().push(command)
            && (r is Ok || (r matches Err(e) && e@ == "Media control has stopped"@))),
{
    match channel {
        None => Err(owned("Media control is not available")),
        Some(open) => send_through(open, command),
    }
}

/// The value of an ASCII hexadecimal digit.
pub open spec fn hex_value(b: u8) -> Option<u8> {
    if 0x30 <= b <= 0x39 {
        Some((b - 0x30) as u8)
    } else if 0x61 <= b <= 0x66 {
        Some((b - 0x57) as u8)
    } else if 0x41 <= b <= 0x46 {
        Some((b - 0x37) as u8)
    } else {
        None
    }
}

/// What `u8::from_str_radix(text, 16)` makes of the two bytes after a `%`:
/// two hexadecimal digits, or a `+` sign and one.
pub open spec fn hex_pair(a: u8, b: u8) -> Option<u8> {
    match (hex_value(a), hex_value(b)) {
        (Some(high), Some(low)) => Some((high * 16 + low) as u8),
        (None, Some(low)) => if a == 0x2b {
            Some(low)
        } else {
            None
        },
        _ => None,
    }
}

/// The bytes with every `%` escape that is followed by two more bytes
/// forming a hexadecimal value replaced by that byte.
pub open spec fn percent_decoded(b: Seq<u8>) -> Seq<u8>
    decreases b.len(),
{
    if b.len() == 0 {
        b
    } else if b[0] == 0x25 && b.len() > 2 && hex_pair(b[1], b[2]) is Some {
        seq![hex_pair(b[1], b[2])->0] + percent_decoded(b.skip(3))
    } else {
        seq![b[0]] + percent_decoded(b.skip(1))
    }
}

fn hex_digit_value(b: u8) -> (r: Option<u8>)
    ensures
        r == hex_value(b),
{
    if 0x30 <= b && b <= 0x39 {
        Some(b - 0x30)
    } else if 0x61 <= b && b <= 0x66 {
        Some(b - 0x57)
    } else if 0x41 <= b && b <= 0x46 {
        Some(b - 0x37)
    } else {
        None
    }
}

fn escape_value(a: u8, b: u8) -> (r: Option<u8>)
    ensures
        r == hex_pair(a, b),
{
    match (hex_digit_value(a), hex_digit_value(b)) {
        (Some(high), Some(low)) => Some(high * 16 + low),
        (None, Some(low)) => if a == 0x2b {
            Some(low)
        } else {
            None
        },
        _ => None,
    }
}

proof fn lemma_no_escape_unchanged(b: Seq<u8>)
    requires
        forall|i: int| 0 <= i < b.len() ==> b[i] != 0x25,
    ensures
        percent_decoded(b) == b,
    decreases b.len(),
{
    if b.len() > 0 {
        lemma_no_escape_unchanged(b.skip(1));
        assert(seq![b[0]] + b.skip(1) =~= b);
    }
}

proof fn lemma_scalar_has_no_percent(v: u32)
    requires
        v != 0x25,
    ensures
        forall|i: int| 0 <= i < encode_scalar(v).len() ==> encode_scalar(v)[i] != 0x25,
{
    assert(v <= 0x7F ==> (v & 0x7F) as u8 != 0x25u8) by (bit_vector)
        requires
            v != 0x25,
    ;
    assert((0xC0 | ((v >> 6) & 0x1F) as u8) != 0x25u8) by (bit_vector);
    assert((0xE0 | ((v >> 12) & 0x0F) as u8) != 0x25u8) by (bit_vector);
    assert((0xF0 | ((v >> 18) & 0x7) as u8) != 0x25u8) by (bit_vector);
    assert((0x80 | (v & 0x3F) as u8) != 0x25u8) by (bit_vector);
    assert((0x80 | ((v >> 6) & 0x3F) as u8) != 0x25u8) by (bit_vector);
    assert((0x80 | ((v >> 12) & 0x3F) as u8) != 0x25u8) by (bit_vector);
}

proof fn lemma_encoding_has_no_percent(chars: Seq<char>)
    requires
        !chars.contains('%'),
    ensures
        forall|i: int| 0 <= i < encode_utf8(chars).len() ==> encode_utf8(chars)[i] != 0x25,
    decreases chars.len(),
{
    if chars.len() > 0 {
        let rest = chars.drop_first();
        assert(!rest.contains('%')) by {
            if rest.contains('%') {
                let k = choose|k: int| 0 <= k < rest.len() && rest[k] == '%';
                assert(chars[k + 1] == '%');
            }
        }
        lemma_encoding_has_no_percent(rest);
        assert(chars[0] != '%');
        let u = chars[0] as u32;
        vstd::utf8::char_u32_cast(chars[0], u);
        assert(u != 0x25);
        lemma_scalar_has_no_percent(u);
        let head = encode_scalar(u);
        let all = encode_utf8(chars);
        assert(all == head + encode_utf8(rest));
        assert forall|i: int| 0 <= i < all.len() implies all[i] != 0x25 by {
            if i < head.len() {
                assert(all[i] == head[i]);
            } else {
                assert(all[i] == encode_utf8(rest)[i - head.len()]);
            }
        }
    }
}

/// Decode the `%` escapes of a path taken from a `file://` URL; whatever
/// the escapes produce is read as UTF-8, invalid sequences becoming U+FFFD.
pub fn percent_decode(value: &str) -> (r: String)
    ensures
        r@ == utf8_lossy(percent_decoded(value.spec_bytes())),
        valid_utf8(percent_decoded(value.spec_bytes())) ==> r@ == decode_utf8(percent_decoded(value.spec_bytes())),
        !value@.contains('%') ==> r@ == value@,
{
    proof {
        if !value@.contains('%') {
            lemma_encoding_has_no_percent(value@);
            lemma_no_escape_unchanged(value.spec_bytes());
        }
    }
    let bytes = value.as_bytes();
    let ghost all = bytes@;
    let mut out: Vec<u8> = Vec::new();
    let mut index: usize = 0;
    assert(all.skip(0) =~= all);
    assert(out@ + all =~= all);
    while index < bytes.len()
        invariant
            bytes@ == all,
            index <= bytes.len(),
            out@ + percent_decoded(all.skip(index as int)) == percent_decoded(all),
        decreases bytes.len() - index,
    {
        let ghost rest = all.skip(index as int);
        if bytes[index] == 0x25 && bytes.len() - index > 2 {
            let decoded = escape_value(bytes[index + 1], bytes[index + 2]);
            if let Some(byte) = decoded {
                assert(rest.skip(3) =~= all.skip(index + 3));
                assert(percent_decoded(rest) == seq![byte] + percent_decoded(rest.skip(3)));
                assert(out@.push(byte) + percent_decoded(all.skip(index + 3)) =~= out@ + percent_decoded(rest));
                out.push(byte);
                index = index + 3;
                continue;
            }
        }
        assert(rest.skip(1) =~= all.skip(index + 1));
        assert(percent_decoded(rest) == seq![bytes@[index as int]] + percent_decoded(rest.skip(1)));
        assert(out@.push(bytes@[index as int]) + percent_decoded(all.skip(index + 1)) =~= out@ + percent_decoded(rest));
        out.push(bytes[index]);
        index = index + 1;
    }
    assert(all.skip(index as int) =~= Seq::<u8>::empty());
    assert(out@ + Seq::<u8>::empty() =~= out@);
    decode_lossy(&out)
}

/// A player's state as Bloom ranks and shows it.
pub struct Snapshot {
    /// The player's bus name.
    pub player: String,
    /// The object path of the loaded track, needed to seek in it.
    pub track_id: Option<String>,
    pub info: MediaInfo,
}

/// What one player reports over MPRIS, unpacked from its D-Bus properties.
pub struct PlayerReply {
    /// `PlaybackStatus`.
    pub status: String,
    /// `xesam:title`.
    pub title: Option<String>,
    /// `mpris:trackid`.
    pub track_id: Option<String>,
    /// `xesam:artist`.
    pub artists: Vec<String>,
    /// `xesam:albumArtist`.
    pub album_artist: Option<String>,
    /// `mpris:length`, in microseconds.
    pub length_us: Option<i64>,
    /// The cover art, already inlined as a data URI.
    pub artwork: Option<String>,
    /// `Position`, in microseconds.
    pub position_us: Option<i64>,
    /// `CanSeek`.
    pub can_seek: Option<bool>,
}

/// A text property counts only when it is present and not empty.
pub open spec fn present_text(s: Option<String>) -> Option<Seq<char>> {
    match s {
        Some(t) => if t@.len() > 0 {
            Some(t@)
        } else {
            None
        },
        None => None,
    }
}

/// A duration in microseconds as whole milliseconds, never negative; absent
/// is zero.
pub open spec fn millis_of(us: Option<i64>) -> int {
    match us {
        Some(u) => if u < 0 {
            0
        } else {
            u / 1000
        },
        None => 0,
    }
}

/// The parts with `sep` between each neighbouring pair.
pub open spec fn joined(parts: Seq<Seq<char>>, sep: Seq<char>) -> Seq<char>
    decreases parts.len(),
{
    if parts.len() == 0 {
        Seq::empty()
    } else if parts.len() == 1 {
        parts[0]
    } else {
        joined(parts.drop_last(), sep) + sep + parts.last()
    }
}

/// The artists joined by `, `, or the album artist when no artist is listed.
pub open spec fn artist_of(reply: PlayerReply) -> Seq<char> {
    if reply.artists@.len() == 0 {
        match present_text(reply.album_artist) {
            Some(a) => a,
            None => Seq::empty(),
        }
    } else {
        joined(views(reply.artists@), ", "@)
    }
}

fn present(s: Option<String>) -> (r: Option<String>)
    ensures
        opt_view(r) == present_text(s),
{
    match s {
        Some(t) => if t.as_str().is_empty() {
            None
        } else {
            Some(t)
        },
        None => None,
    }
}

fn millis(us: Option<i64>) -> (r: i64)
    ensures
        r == millis_of(us),
{
    match us {
        Some(u) => if u <= 0 {
            0
        } else {
            u / 1000
        },
        None => 0,
    }
}

fn join_artists(parts: &Vec<String>) -> (r: String)
    ensures
        r@ == joined(views(parts@), ", "@),
{
    let ghost all = views(parts@);
    let mut out: Vec<char> = Vec::new();
    let mut i: usize = 0;
    while i < parts.len()
        invariant
            i <= parts.len(),
            all == views(parts@),
            out@ == joined(all.take(i as int), ", "@),
        decreases parts.len() - i,
    {
        proof {
            reveal_strlit(", ");
        }
        let part = chars_of(parts[i].as_str());
        if i > 0 {
            out.push(',');
            out.push(' ');
        }
        extend_chars(&mut out, &part);
        proof {
            let next = all.take(i + 1);
            assert(next.drop_last() =~= all.take(i as int));
            assert(next.last() == part@);
            if i == 0 {
                assert(out@ =~= joined(next, ", "@));
            } else {
                assert(out@ =~= joined(all.take(i as int), ", "@) + ", "@ + part@);
            }
        }
        i = i + 1;
    }
    assert(all.take(parts.len() as int) =~= all);
    string_of(&out)
}

/// Read one player's reply into a snapshot. A player without a title has
/// nothing worth showing (a stopped player, for example) and gives `None`.
pub fn snapshot(player: &str, reply: PlayerReply, now_ms: u64) -> (r: Option<Snapshot>)
    ensures
        r is None <==> present_text(reply.title) is None,
        r matches Some(s) ==> {
            &&& s.player@ == player@
            &&& s.track_id == reply.track_id
            &&& Some(s.info.title@) == present_text(reply.title)
            &&& s.info.artist@ == artist_of(reply)
            &&& s.info.is_playing == (reply.status@ == "Playing"@)
            &&& s.info.has_media
            &&& (match reply.artwork {
                Some(uri) => s.info.artwork matches Some(v) && v@ == seq![uri],
                None => s.info.artwork is None,
            })
            &&& s.info.position_ms == millis_of(reply.position_us)
            &&& s.info.duration_ms == millis_of(reply.length_us)
            &&& s.info.seek_enabled == (reply.can_seek == Some(true))
            &&& s.info.position_updated_at == now_ms
        },
{
    let ghost original = reply;
    let PlayerReply {
        status,
        title,
        track_id,
        artists,
        album_artist,
        length_us,
        artwork,
        position_us,
        can_seek,
    } = reply;
    let title = match present(title) {
        Some(t) => t,
        None => return None,
    };
    let artist = if artists.len() == 0 {
        match present(album_artist) {
            Some(a) => a,
            None => String::new(),
        }
    } else {
        join_artists(&artists)
    };
    let artwork = match artwork {
        Some(uri) => {
            let mut v: Vec<String> = Vec::new();
            v.push(uri);
            Some(v)
        },
        None => None,
    };
    let is_playing = str_eq(status.as_str(), "Playing");
    let seek_enabled = match can_seek {
        Some(b) => b,
        None => false,
    };
    Some(
        Snapshot {
            player: owned(player),
            track_id,
            info: MediaInfo {
                title,
                artist,
                is_playing,
                has_media: true,
                artwork,
                position_ms: millis(position_us),
                duration_ms: millis(length_us),
                seek_enabled,
                position_updated_at: now_ms,
            },
        },
    )
}

/// The state shown when no player has anything to show.
pub open spec fn is_empty_snapshot(s: Snapshot) -> bool {
    &&& s.player@.len() == 0
    &&& s.track_id is None
    &&& s.info.title@.len() == 0
    &&& s.info.artist@.len() == 0
    &&& !s.info.is_playing
    &&& !s.info.has_media
    &&& s.info.artwork is None
    &&& s.info.position_ms == 0
    &&& s.info.duration_ms == 0
    &&& !s.info.seek_enabled
    &&& s.info.position_updated_at == 0
}

/// A snapshot with no player and no media.
pub fn empty_snapshot() -> (s: Snapshot)
    ensures
        is_empty_snapshot(s),
{
    Snapshot {
        player: String::new(),
        track_id: None,
        info: MediaInfo {
            title: String::new(),
            artist: String::new(),
            is_playing: false,
            has_media: false,
            artwork: None,
            position_ms: 0,
            duration_ms: 0,
            seek_enabled: false,
            position_updated_at: 0,
        },
    }
}

/// One step of ranking players: a playing player is kept; otherwise a
/// playing candidate replaces it; otherwise the earlier player stays.
pub open spec fn chosen(best: Option<Snapshot>, candidate: Snapshot) -> Option<Snapshot> {
    match best {
        Some(current) => if current.info.is_playing || !candidate.info.is_playing {
            Some(current)
        } else {
            Some(candidate)
        },
        None => Some(candidate),
    }
}

/// Prefer a playing player, otherwise keep the first one that has metadata.
pub fn choose_player(best: Option<Snapshot>, candidate: Snapshot) -> (r: Option<Snapshot>)
    ensures
        r == chosen(best, candidate),
{
    match best {
        Some(current) => {
            if current.info.is_playing {
                Some(current)
            } else if candidate.info.is_playing {
                Some(candidate)
            } else {
                Some(current)
            }
        },
        None => Some(candidate),
    }
}

/// The player Bloom shows out of those reporting, in the order they were
/// listed: the ranking applied from the first to the last.
pub open spec fn preferred(s: Seq<Snapshot>) -> Option<Snapshot>
    decreases s.len(),
{
    if s.len() == 0 {
        None
    } else {
        chosen(preferred(s.drop_last()), s.last())
    }
}

/// The player to show, or the empty snapshot when none reports anything.
pub fn best_snapshot(snapshots: Vec<Snapshot>) -> (r: Snapshot)
    ensures
        match preferred(snapshots@) {
            Some(s) => r == s,
            None => is_empty_snapshot(r),
        },
{
    let ghost all = snapshots@;
    let count: usize = snapshots.len();
    assert(all.len() == count);
    let mut rest = snapshots;
    let mut best: Option<Snapshot> = None;
    let mut k: usize = 0;
    assert(all.take(0) =~= Seq::<Snapshot>::empty());
    assert(all.skip(0) =~= all);
    while rest.len() > 0
        invariant
            k <= all.len(),
            all.len() <= usize::MAX,
            rest@ == all.skip(k as int),
            best == preferred(all.take(k as int)),
        decreases rest.len(),
    {
        let candidate = rest.remove(0);
        assert(all.take(k + 1).drop_last() =~= all.take(k as int));
        assert(rest@ =~= all.skip(k + 1));
        best = choose_player(best, candidate);
        k = k + 1;
    }
    assert(all.take(k as int) =~= all);
    match best {
        Some(s) => s,
        None => empty_snapshot(),
    }
}

/// A playing player is shown over any other: the first one listed among
/// those playing.
pub proof fn lemma_playing_player_wins(s: Seq<Snapshot>, i: int)
    requires
        0 <= i < s.len(),
        s[i].info.is_playing,
        forall|j: int| 0 <= j < i ==> !(#[trigger] s[j]).info.is_playing,
    ensures
        preferred(s) == Some(s[i]),
    decreases s.len(),
{
    if i < s.len() - 1 {
        lemma_playing_player_wins(s.drop_last(), i);
        assert(s.drop_last()[i] == s[i]);
    } else if i > 0 {
        assert forall|j: int| 0 <= j < s.drop_last().len() implies !(#[trigger] s.drop_last()[j]).info.is_playing by {
            assert(s.drop_last()[j] == s[j]);
        }
        lemma_first_player_when_none_plays(s.drop_last());
    } else {
        assert(preferred(s.drop_last()) is None);
    }
}

/// When no player is playing, the first one listed is shown.
pub proof fn lemma_first_player_when_none_plays(s: Seq<Snapshot>)
    requires
        s.len() > 0,
        forall|j: int| 0 <= j < s.len() ==> !(#[trigger] s[j]).info.is_playing,
    ensures
        preferred(s) == Some(s[0]),
    decreases s.len(),
{
    if s.len() > 1 {
        lemma_first_player_when_none_plays(s.drop_last());
        assert(s.drop_last()[0] == s[0]);
        assert(!s.last().info.is_playing);
    } else {
        assert(preferred(s.drop_last()) is None);
    }
}

/// The first artwork a snapshot carries, as text.
pub open spec fn first_artwork(m: MediaInfo) -> Option<Seq<char>> {
    match m.artwork {
        Some(v) => if v@.len() > 0 {
            Some(v@[0]@)
        } else {
            None
        },
        None => None,
    }
}

/// Whether the interface must be told about `current`: always the first
/// time, then when the title, artist, playing state, presence of media or
/// artwork differs, or the position moved by more than a second.
pub open spec fn visibly_changed(previous: Option<&MediaInfo>, current: &MediaInfo) -> bool {
    match previous {
        None => true,
        Some(p) => {
            ||| p.title@ != current.title@
            ||| p.artist@ != current.artist@
            ||| p.is_playing != current.is_playing
            ||| p.has_media != current.has_media
            ||| first_artwork(*p) != first_artwork(*current)
            ||| p.position_ms - current.position_ms > 1000
            ||| current.position_ms - p.position_ms > 1000
        },
    }
}

fn first_artwork_text(m: &MediaInfo) -> (r: Option<&String>)
    ensures
        opt_view(match r {
            Some(s) => Some(*s),
            None => None,
        }) == first_artwork(*m),
{
    match &m.artwork {
        Some(v) => if v.len() > 0 {
            Some(&v[0])
        } else {
            None
        },
        None => None,
    }
}

fn same_text(a: Option<&String>, b: Option<&String>) -> (r: bool)
    ensures
        r == (opt_view(match a {
            Some(s) => Some(*s),
            None => None,
        }) == opt_view(match b {
            Some(s) => Some(*s),
            None => None,
        })),
{
    match (a, b) {
        (Some(x), Some(y)) => str_eq(x.as_str(), y.as_str()),
        (None, None) => true,
        _ => false,
    }
}

/// Whether `current` differs visibly from what was last reported.
pub fn media_changed(previous: Option<&MediaInfo>, current: &MediaInfo) -> (r: bool)
    requires
        previous matches Some(p) ==> i64::MIN < p.position_ms - current.position_ms <= i64::MAX,
    ensures
        r == visibly_changed(previous, current),
{
    match previous {
        None => true,
        Some(p) => {
            let moved = p.position_ms - current.position_ms;
            !str_eq(p.title.as_str(), current.title.as_str()) || !str_eq(
                p.artist.as_str(),
                current.artist.as_str(),
            ) || p.is_playing != current.is_playing || p.has_media != current.has_media
                || !same_text(first_artwork_text(p), first_artwork_text(current)) || moved > 1000
                || moved < -1000
        },
    }
}

/// When the interface must hear of a new reading. The first reading is
/// always reported. Whether two readings differ visibly does not depend on
/// which came first. Of two readings that agree on everything shown but the
/// position, the later is reported exactly when the position moved by more
/// than a second, forward or back; and any difference in title, artist,
/// playing state, presence of media or artwork is reported.
pub proof fn lemma_visible_changes(p: MediaInfo, c: MediaInfo)
    ensures
        visibly_changed(None, &c),
        visibly_changed(Some(&p), &c) == visibly_changed(Some(&c), &p),
        p.position_ms - c.position_ms > 1000 ==> visibly_changed(Some(&p), &c),
        c.position_ms - p.position_ms > 1000 ==> visibly_changed(Some(&p), &c),
        p.title@ != c.title@ || p.artist@ != c.artist@ || p.is_playing != c.is_playing
            || p.has_media != c.has_media || first_artwork(p) != first_artwork(c)
            ==> visibly_changed(Some(&p), &c),
        p.title@ == c.title@ && p.artist@ == c.artist@ && p.is_playing == c.is_playing
            && p.has_media == c.has_media && first_artwork(p) == first_artwork(c) ==> (
        visibly_changed(Some(&p), &c) <==> (p.position_ms - c.position_ms) * (p.position_ms
            - c.position_ms) > 1000 * 1000),
{
    let d = p.position_ms - c.position_ms;
    assert(d > 1000 || -d > 1000 <==> d * d > 1000 * 1000) by (nonlinear_arith);
}

/// A character D-Bus allows in an object path.
pub open spec fn object_path_char(c: char) -> bool {
    ||| 'a' <= c <= 'z'
    ||| 'A' <= c <= 'Z'
    ||| '0' <= c <= '9'
    ||| c == '_'
    ||| c == '/'
}

/// A D-Bus object path: `/`, or `/` followed by non-empty names of ASCII
/// letters, digits and `_` separated by single slashes.
pub open spec fn is_object_path(s: Seq<char>) -> bool {
    &&& s.len() >= 1
    &&& s[0] == '/'
    &&& forall|i: int| 0 <= i < s.len() ==> object_path_char(#[trigger] s[i])
    &&& forall|i: int| 0 <= i < s.len() - 1 ==> !(#[trigger] s[i] == '/' && s[i + 1] == '/')
    &&& (s.len() == 1 || s.last() != '/')
}

/// `zvariant::ObjectPath::try_from`: the text is accepted exactly when it is
/// an object path by the rules its validator checks.
#[verifier::external_body]
fn object_path_valid(s: &str) -> (r: bool)
    ensures
        r == is_object_path(s@),
{
    zbus::zvariant::ObjectPath::try_from(s).is_ok()
}

/// The MPRIS method a transport request becomes.
pub enum MprisCall {
    PlayPause,
    Next,
    Previous,
    /// `SetPosition` on a track, in microseconds.
    SetPosition { track: String, position_us: i64 },
}

/// The call to make on the active player for a transport request, if any:
/// nothing without an active player, and a seek only when the track is
/// known by a valid object path.
pub fn transport_call(active: Option<&Snapshot>, command: MediaCommand) -> (r: Option<MprisCall>)
    requires
        command matches MediaCommand::Seek(p) ==> (active matches Some(a) ==> (a.track_id matches Some(
            t,
        ) ==> (is_object_path(t@) ==> i64::MIN <= p * 1000 <= i64::MAX))),
    ensures
        active is None ==> r is None,
        active matches Some(a) ==> match command {
            MediaCommand::PlayPause => r matches Some(MprisCall::PlayPause),
            MediaCommand::Next => r matches Some(MprisCall::Next),
            MediaCommand::Previous => r matches Some(MprisCall::Previous),
            MediaCommand::Seek(p) => match a.track_id {
                Some(t) => if is_object_path(t@) {
                    r matches Some(MprisCall::SetPosition { track, position_us }) && track@ == t@
                        && position_us == p * 1000
                } else {
                    r is None
                },
                None => r is None,
            },
        },
{
    let active = match active {
        Some(a) => a,
        None => return None,
    };
    match command {
        MediaCommand::PlayPause => Some(MprisCall::PlayPause),
        MediaCommand::Next => Some(MprisCall::Next),
        MediaCommand::Previous => Some(MprisCall::Previous),
        MediaCommand::Seek(position_ms) => {
            match &active.track_id {
                Some(track) => {
                    if object_path_valid(track.as_str()) {
                        Some(
                            MprisCall::SetPosition {
                                track: owned(track.as_str()),
                                position_us: position_ms * 1000,
                            },
                        )
                    } else {
                        None
                    }
                },
                None => None,
            }
        },
    }
}

/// Artwork larger than this many bytes is not inlined.
pub const MAX_ARTWORK_BYTES: u64 = 8388608;

/// Whether a cover art file is small enough to inline.
pub fn artwork_fits(len: u64) -> (r: bool)
    ensures
        r == (len <= MAX_ARTWORK_BYTES),
{
    len <= MAX_ARTWORK_BYTES
}

/// The MIME type of cover art, by its extension in any case.
pub open spec fn artwork_mime(ext: Seq<char>) -> Option<Seq<char>> {
    let e = ascii_lower_seq(ext);
    if e == "png"@ {
        Some("image/png"@)
    } else if e == "jpg"@ || e == "jpeg"@ {
        Some("image/jpeg"@)
    } else if e == "webp"@ {
        Some("image/webp"@)
    } else if e == "gif"@ {
        Some("image/gif"@)
    } else {
        None
    }
}

/// The file a `mpris:artUrl` names, with its `%` escapes decoded, and its
/// MIME type: only local `file://` URLs of the four supported image types.
pub open spec fn artwork_target(url: Seq<char>) -> Option<(Seq<char>, Seq<char>)> {
    if !starts_with(url, "file://"@) {
        None
    } else {
        let path = utf8_lossy(percent_decoded(encode_utf8(url.skip(7))));
        match extension(path) {
            Some(ext) => match artwork_mime(ext) {
                Some(mime) => Some((path, mime)),
                None => None,
            },
            None => None,
        }
    }
}

fn mime_for(ext: &[char]) -> (r: Option<String>)
    ensures
        opt_view(r) == artwork_mime(ext@),
{
    let lower = ascii_lowercase_chars(ext);
    proof {
        reveal_strlit("png");
        reveal_strlit("jpg");
        reveal_strlit("jpeg");
        reveal_strlit("webp");
        reveal_strlit("gif");
    }
    let png = chars_of("png");
    let jpg = chars_of("jpg");
    let jpeg = chars_of("jpeg");
    let webp = chars_of("webp");
    let gif = chars_of("gif");
    if crate::text::chars_eq(&lower, &png) {
        Some(owned("image/png"))
    } else if crate::text::chars_eq(&lower, &jpg) || crate::text::chars_eq(&lower, &jpeg) {
        Some(owned("image/jpeg"))
    } else if crate::text::chars_eq(&lower, &webp) {
        Some(owned("image/webp"))
    } else if crate::text::chars_eq(&lower, &gif) {
        Some(owned("image/gif"))
    } else {
        None
    }
}

/// The local file behind a track's artwork URL and its MIME type. Remote
/// URLs are never fetched.
pub fn artwork_file(url: &str) -> (r: Option<(String, String)>)
    ensures
        match r {
            Some((path, mime)) => artwork_target(url@) == Some((path@, mime@)),
            None => artwork_target(url@) is None,
        },
{
    let chars = chars_of(url);
    let scheme = chars_of("file://");
    if !has_prefix(&chars, &scheme) {
        return None;
    }
    proof {
        reveal_strlit("file://");
    }
    let rest = string_of(&slice_chars(&chars, 7, chars.len()));
    assert(rest@ =~= url@.skip(7));
    let path = percent_decode(rest.as_str());
    let path_chars = chars_of(path.as_str());
    match path_extension(&path_chars) {
        Some(ext) => match mime_for(&ext) {
            Some(mime) => Some((path, mime)),
            None => None,
        },
        None => None,
    }
}

} // verus!