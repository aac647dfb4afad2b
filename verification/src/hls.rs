//! The HLS side: playlists for the player and rewriting of upstream playlists.
use vstd::prelude::*;
use vstd::utf8::encode_utf8;
use crate::text::{
    chars_of, string_from_chars, slice_vec, push_str, push_chars, find, find_char, find_vec,
    find_char_vec, trim, trim_vec, trim_start_char, trim_start_char_vec, replace_first,
    replace_first_vec, replace_all, replace_all_vec, contains, contains_vec, rfind_char,
    rfind_char_vec, lemma_find_props, lemma_rfind_char_props, starts_with, starts_with_vec,
};
use crate::encoding::{percent_encode, url_encode};
use crate::filter::FilterStore;
use crate::stalker::Channel;

verus! {

/// A channel served by the HLS server.
#[derive(Debug, Clone)]
pub struct ChannelState {
    pub info: Channel,
}

// ---------------------------------------------------------------------------
// Lines
// ---------------------------------------------------------------------------

pub open spec fn strip_cr(l: Seq<char>) -> Seq<char> {
    if l.len() > 0 && l.last() == '\r' {
        l.drop_last()
    } else {
        l
    }
}

/// `str::lines`: pieces between `\n`, each without a `\r` that ends it; a final line
/// ending adds no empty line.
pub open spec fn lines(s: Seq<char>) -> Seq<Seq<char>>
    decreases s.len(),
{
    if s.len() == 0 {
        Seq::empty()
    } else {
        match find_char(s, '\n') {
            Some(i) => if 0 <= i < s.len() {
                seq![strip_cr(s.subrange(0, i))] + lines(s.subrange(i + 1, s.len() as int))
            } else {
                seq![s]
            },
            None => seq![s],
        }
    }
}

/// The lines of `s`.
pub fn split_lines(s: &Vec<char>) -> (r: Vec<Vec<char>>)
    ensures
        r@.len() == lines(s@).len(),
        forall|i: int| 0 <= i < r@.len() ==> #[trigger] r@[i]@ == lines(s@)[i],
{
    let mut out: Vec<Vec<char>> = Vec::new();
    let ghost mut done: Seq<Seq<char>> = Seq::empty();
    let mut pos: usize = 0;
    assert(s@.subrange(0, s@.len() as int) =~= s@);
    assert(done + lines(s@) =~= lines(s@));
    while pos < s.len()
        invariant
            pos <= s.len(),
            out@.len() == done.len(),
            forall|i: int| 0 <= i < out@.len() ==> #[trigger] out@[i]@ == done[i],
            done + lines(s@.subrange(pos as int, s@.len() as int)) == lines(s@),
        decreases s.len() - pos,
    {
        let rest = slice_vec(s, pos, s.len());
        proof {
            crate::text::lemma_find_props(rest@, seq!['\n']);
        }
        match find_char_vec(&rest, '\n') {
            Some(i) => {
                let mut line = slice_vec(&rest, 0, i);
                if line.len() > 0 && line[line.len() - 1] == '\r' {
                    line = slice_vec(&line, 0, line.len() - 1);
                }
                proof {
                    assert(line@ == strip_cr(rest@.subrange(0, i as int)));
                    assert(rest@.subrange(i + 1, rest@.len() as int) =~= s@.subrange(pos + i + 1, s@.len() as int));
                    assert(lines(rest@) =~= seq![line@] + lines(s@.subrange(pos + i + 1, s@.len() as int)));
                    assert(done.push(line@) + lines(s@.subrange(pos + i + 1, s@.len() as int)) =~= done + lines(rest@));
                    done = done.push(line@);
                }
                out.push(line);
                pos = pos + i + 1;
            },
            None => {
                proof {
                    assert(lines(rest@) =~= seq![rest@]);
                    assert(s@.subrange(s@.len() as int, s@.len() as int) =~= Seq::<char>::empty());
                    assert(done.push(rest@) + lines(s@.subrange(s@.len() as int, s@.len() as int)) =~= done + lines(rest@));
                    done = done.push(rest@);
                }
                out.push(rest);
                pos = s.len();
            },
        }
    }
    assert(s@.subrange(pos as int, s@.len() as int) =~= Seq::<char>::empty());
    assert(done =~= lines(s@));
    out
}

// ---------------------------------------------------------------------------
// Playlist rewriting
// ---------------------------------------------------------------------------

/// The base that rewritten addresses point to: `scheme://host/` and the encoded title.
pub open spec fn proxy_prefix(scheme: Seq<char>, host: Seq<char>, title: Seq<char>) -> Seq<char> {
    scheme + "://"@ + host + seq!['/'] + percent_encode(encode_utf8(title))
}

/// One playlist line after rewriting, with its line ending: an empty line stays empty;
/// a tag keeps its text but a quoted `URI="..."` attribute points under `prefix`; any
/// other line is a segment address that is put under `prefix`.
pub open spec fn rewrite_line(line: Seq<char>, prefix: Seq<char>) -> Seq<char> {
    let uri_tag = seq!['U', 'R', 'I', '=', '"'];
    if line.len() == 0 {
        seq!['\n']
    } else if line[0] == '#' {
        match find(line, uri_tag) {
            Some(start) => {
                let rest = line.subrange(start + 5, line.len() as int);
                match find_char(rest, '"') {
                    Some(end) => line.subrange(0, start) + uri_tag + prefix + seq!['/']
                        + trim_start_char(rest.subrange(0, end), '/') + seq!['"'] + rest.subrange(
                        end + 1,
                        rest.len() as int,
                    ) + seq!['\n'],
                    None => line + seq!['\n'],
                }
            },
            None => line + seq!['\n'],
        }
    } else {
        prefix + seq!['/'] + trim_start_char(trim(line), '/') + seq!['\n']
    }
}

pub open spec fn rewrite_lines(ls: Seq<Seq<char>>, prefix: Seq<char>) -> Seq<char>
    decreases ls.len(),
{
    if ls.len() == 0 {
        Seq::empty()
    } else {
        rewrite_lines(ls.drop_last(), prefix) + rewrite_line(ls.last(), prefix)
    }
}

/// What `rewrite_m3u8` produces.
pub open spec fn rewritten_playlist(content: Seq<char>, scheme: Seq<char>, host: Seq<char>, title: Seq<char>) -> Seq<char> {
    rewrite_lines(lines(content), proxy_prefix(scheme, host, title))
}

fn rewrite_one_line(out: &mut Vec<char>, line: &Vec<char>, prefix: &Vec<char>)
    ensures
        final(out)@ == old(out)@ + rewrite_line(line@, prefix@),
{
    let uri_tag: Vec<char> = vec!['U', 'R', 'I', '=', '"'];
    assert(uri_tag@ =~= seq!['U', 'R', 'I', '=', '"']);
    if line.len() == 0 {
        out.push('\n');
        assert(out@ =~= old(out)@ + rewrite_line(line@, prefix@));
        return;
    }
    if line[0] == '#' {
        proof {
            lemma_find_props(line@, uri_tag@);
        }
        match find_vec(line, &uri_tag) {
            Some(start) => {
                let rest = slice_vec(line, start + 5, line.len());
                proof {
                    lemma_find_props(rest@, seq!['"']);
                }
                match find_char_vec(&rest, '"') {
                    Some(end) => {
                        let head = slice_vec(line, 0, start);
                        push_chars(out, &head);
                        push_chars(out, &uri_tag);
                        push_chars(out, prefix);
                        out.push('/');
                        let uri = slice_vec(&rest, 0, end);
                        let uri = trim_start_char_vec(&uri, '/');
                        push_chars(out, &uri);
                        out.push('"');
                        let tail = slice_vec(&rest, end + 1, rest.len());
                        push_chars(out, &tail);
                        out.push('\n');
                        assert(out@ =~= old(out)@ + rewrite_line(line@, prefix@));
                        return;
                    },
                    None => {},
                }
            },
            None => {},
        }
        push_chars(out, line);
        out.push('\n');
        assert(out@ =~= old(out)@ + rewrite_line(line@, prefix@));
    } else {
        push_chars(out, prefix);
        out.push('/');
        let seg = trim_vec(line);
        let seg = trim_start_char_vec(&seg, '/');
        push_chars(out, &seg);
        out.push('\n');
        assert(out@ =~= old(out)@ + rewrite_line(line@, prefix@));
    }
}

/// Rewrites an HLS playlist so that every segment and key address points back at this
/// server, under `scheme://host/` and the encoded channel title.
pub fn rewrite_m3u8(content: &str, scheme: &str, host: &str, title: &str) -> (r: String)
    ensures
        r@ == rewritten_playlist(content@, scheme@, host@, title@),
{
    let mut prefix: Vec<char> = Vec::new();
    push_str(&mut prefix, scheme);
    push_str(&mut prefix, "://");
    push_str(&mut prefix, host);
    prefix.push('/');
    let enc = url_encode(title);
    push_str(&mut prefix, enc.as_str());
    assert(prefix@ =~= proxy_prefix(scheme@, host@, title@));
    let c = chars_of(content);
    let ls = split_lines(&c);
    let mut out: Vec<char> = Vec::new();
    let mut i: usize = 0;
    while i < ls.len()
        invariant
            i <= ls@.len(),
            ls@.len() == lines(c@).len(),
            forall|k: int| 0 <= k < ls@.len() ==> #[trigger] ls@[k]@ == lines(c@)[k],
            out@ == rewrite_lines(lines(c@).take(i as int), prefix@),
        decreases ls@.len() - i,
    {
        rewrite_one_line(&mut out, &ls[i], &prefix);
        proof {
            assert(lines(c@).take(i + 1).drop_last() =~= lines(c@).take(i as int));
        }
        i += 1;
    }
    assert(lines(c@).take(ls@.len() as int) =~= lines(c@));
    string_from_chars(out)
}

// ---------------------------------------------------------------------------
// Addresses
// ---------------------------------------------------------------------------

/// Whether a character ends the authority part of a URL (host and port).
pub open spec fn ends_authority(c: char) -> bool {
    c == '/' || c == '?' || c == '#'
}

/// The index where the authority part that starts at `i` ends: the first `/`, `?` or `#`
/// from `i` on, else the end of `s`.
pub open spec fn authority_end(s: Seq<char>, i: int) -> int
    decreases s.len() - i,
{
    if i >= s.len() {
        s.len() as int
    } else if ends_authority(s[i]) {
        i
    } else {
        authority_end(s, i + 1)
    }
}

/// `s` without the port `:80`: where the authority after the first `://` ends in `:80`,
/// those three characters are dropped; anything else stays as it is.
pub open spec fn without_port_80(s: Seq<char>) -> Seq<char> {
    match find(s, "://"@) {
        Some(p) => {
            let a = p + 3;
            let e = authority_end(s, a);
            if e - a >= 3 && s.subrange(e - 3, e) == ":80"@ {
                s.subrange(0, e - 3) + s.subrange(e, s.len() as int)
            } else {
                s
            }
        },
        None => s,
    }
}

/// An `http://` address moved to `https://`, and the port 80 stripped from the
/// authority (the path, query and fragment are kept as they are).
pub open spec fn https_upgraded(url: Seq<char>) -> Seq<char> {
    let s = if starts_with(url, "http://"@) {
        "https://"@ + url.subrange(7, url.len() as int)
    } else {
        url
    };
    without_port_80(s)
}

/// Moves a stream address to HTTPS on the default port.
pub fn upgrade_to_https(url: &str) -> (r: String)
    ensures
        r@ == https_upgraded(url@),
{
    proof {
        reveal_strlit("http://");
        reveal_strlit("https://");
        reveal_strlit("://");
        reveal_strlit(":80");
    }
    let u = chars_of(url);
    let s = if starts_with_vec(&u, &chars_of("http://")) {
        let mut v = chars_of("https://");
        let rest = slice_vec(&u, 7, u.len());
        push_chars(&mut v, &rest);
        v
    } else {
        u
    };
    assert(s@ == (if starts_with(url@, "http://"@) {
        "https://"@ + url@.subrange(7, url@.len() as int)
    } else {
        url@
    }));
    proof {
        lemma_find_props(s@, "://"@);
    }
    let out = match find_vec(&s, &chars_of("://")) {
        Some(p) => {
            assert(find(s@, "://"@) == Some(p as int));
            assert(p + 3 <= s.len());
            let a = p + 3;
            let mut j = a;
            while j < s.len() && !(s[j] == '/' || s[j] == '?' || s[j] == '#')
                invariant
                    a <= j <= s.len(),
                    authority_end(s@, a as int) == authority_end(s@, j as int),
                decreases s.len() - j,
            {
                j += 1;
            }
            let e = j;
            if e - a >= 3 && s[e - 3] == ':' && s[e - 2] == '8' && s[e - 1] == '0' {
                assert(s@.subrange(e - 3, e as int) =~= ":80"@);
                let mut v = slice_vec(&s, 0, e - 3);
                let tail = slice_vec(&s, e, s.len());
                push_chars(&mut v, &tail);
                v
            } else {
                proof {
                    if e - a >= 3 && s@.subrange(e - 3, e as int) == ":80"@ {
                        assert(s@.subrange(e - 3, e as int)[0] == s@[e - 3]);
                        assert(s@.subrange(e - 3, e as int)[1] == s@[e - 2]);
                        assert(s@.subrange(e - 3, e as int)[2] == s@[e - 1]);
                    }
                }
                s
            }
        },
        None => s,
    };
    string_from_chars(out)
}

/// The directory of a playlist address (through its last `/`), for resolving segment
/// names; an address without `.m3u8` stays as it is.
pub open spec fn hls_root_of(url: Seq<char>) -> Seq<char> {
    if contains(url, ".m3u8"@) {
        match rfind_char(url, '/') {
            Some(pos) => url.subrange(0, pos + 1),
            None => url + seq!['/'],
        }
    } else {
        url
    }
}

pub fn get_hls_root_for_url(url: &str) -> (r: String)
    ensures
        r@ == hls_root_of(url@),
{
    let u = chars_of(url);
    if contains_vec(&u, &chars_of(".m3u8")) {
        proof {
            lemma_rfind_char_props(u@, '/');
        }
        match rfind_char_vec(&u, '/') {
            Some(pos) => {
                assert(pos < u.len());
                string_from_chars(slice_vec(&u, 0, pos + 1))
            },
            None => {
                let mut o = u.clone();
                o.push('/');
                string_from_chars(o)
            },
        }
    } else {
        string_from_chars(u)
    }
}


// ---------------------------------------------------------------------------
// The player's playlist
// ---------------------------------------------------------------------------

/// The playlist entry of one channel: its `#EXTINF` line (command as `tvg-id`, renamed
/// title, logo address, renamed genre) and its address on this server.
pub open spec fn playlist_entry(m: crate::filter::FilterModel, pid: i32, ch: Channel, scheme: Seq<char>, host: Seq<char>) -> Seq<char> {
    let title = m.apply_rename(pid, ch.title@);
    let enc = percent_encode(encode_utf8(title));
    let genre = m.apply_genre_rename(pid, ch.genre_id@, ch.genre@);
    "#EXTINF:-1 tvg-id=\""@ + ch.cmd@ + "\" tvg-name=\""@ + title + "\" tvg-logo=\"/logo/"@ + enc
        + "\" group-title=\""@ + genre + "\", "@ + title + seq!['\n'] + scheme + "://"@ + host
        + seq!['/'] + enc + seq!['\n']
}

/// The entries of the channels the filter allows, in order.
pub open spec fn playlist_entries(m: crate::filter::FilterModel, pid: i32, chs: Seq<ChannelState>, scheme: Seq<char>, host: Seq<char>) -> Seq<char>
    decreases chs.len(),
{
    if chs.len() == 0 {
        Seq::empty()
    } else {
        let ch = chs.last().info;
        playlist_entries(m, pid, chs.drop_last(), scheme, host) + if m.is_channel_allowed(
            pid,
            ch.cmd@,
            ch.genre_id@,
        ) {
            playlist_entry(m, pid, ch, scheme, host)
        } else {
            Seq::empty()
        }
    }
}

/// The M3U playlist served to players: a header naming the guide address, then one
/// entry per allowed channel.
pub open spec fn playlist(m: crate::filter::FilterModel, pid: i32, chs: Seq<ChannelState>, scheme: Seq<char>, host: Seq<char>) -> Seq<char> {
    "#EXTM3U x-tvg-url=\""@ + scheme + "://"@ + host + "/epg\"\n"@ + playlist_entries(m, pid, chs, scheme, host)
}

fn push_entry(out: &mut Vec<char>, filter: &FilterStore, profile_id: i32, ch: &Channel, scheme: &str, host: &str)
    ensures
        final(out)@ == old(out)@ + playlist_entry(filter.model(), profile_id, *ch, scheme@, host@),
{
    let title = filter.apply_rename(profile_id, ch.title.as_str());
    let enc = url_encode(title.as_str());
    let genre = filter.apply_genre_rename(profile_id, ch.genre_id.as_str(), ch.genre.as_str());
    push_str(out, "#EXTINF:-1 tvg-id=\"");
    push_str(out, ch.cmd.as_str());
    push_str(out, "\" tvg-name=\"");
    push_str(out, title.as_str());
    push_str(out, "\" tvg-logo=\"/logo/");
    push_str(out, enc.as_str());
    push_str(out, "\" group-title=\"");
    push_str(out, genre.as_str());
    push_str(out, "\", ");
    push_str(out, title.as_str());
    out.push('\n');
    push_str(out, scheme);
    push_str(out, "://");
    push_str(out, host);
    out.push('/');
    push_str(out, enc.as_str());
    out.push('\n');
    assert(out@ =~= old(out)@ + playlist_entry(filter.model(), profile_id, *ch, scheme@, host@));
}

/// The M3U playlist of the allowed channels, with renamed titles and genres.
pub fn build_playlist(channels: &Vec<ChannelState>, filter: &FilterStore, profile_id: i32, scheme: &str, host: &str) -> (r: String)
    ensures
        r@ == playlist(filter.model(), profile_id, channels@, scheme@, host@),
{
    let mut out: Vec<char> = Vec::new();
    push_str(&mut out, "#EXTM3U x-tvg-url=\"");
    push_str(&mut out, scheme);
    push_str(&mut out, "://");
    push_str(&mut out, host);
    push_str(&mut out, "/epg\"\n");
    let ghost head = out@;
    let mut i: usize = 0;
    assert(channels@.take(0) =~= Seq::<ChannelState>::empty());
    while i < channels.len()
        invariant
            i <= channels.len(),
            out@ == head + playlist_entries(filter.model(), profile_id, channels@.take(i as int), scheme@, host@),
        decreases channels.len() - i,
    {
        let ch = &channels[i].info;
        proof {
            assert(channels@.take(i + 1).drop_last() =~= channels@.take(i as int));
        }
        if filter.is_channel_allowed(profile_id, ch.cmd.as_str(), ch.genre_id.as_str()) {
            push_entry(&mut out, filter, profile_id, ch, scheme, host);
        }
        i += 1;
        assert(out@ =~= head + playlist_entries(filter.model(), profile_id, channels@.take(i as int), scheme@, host@));
    }
    assert(channels@.take(channels.len() as int) =~= channels@);
    assert(out@ =~= playlist(filter.model(), profile_id, channels@, scheme@, host@));
    string_from_chars(out)
}

// ---------------------------------------------------------------------------
// Requests
// ---------------------------------------------------------------------------

/// The text before the first `c` (all of it when there is none).
pub open spec fn before_first(s: Seq<char>, c: char) -> Seq<char> {
    match find_char(s, c) {
        Some(i) => s.subrange(0, i),
        None => s,
    }
}

/// The text after the first `c` (empty when there is none).
pub open spec fn after_first(s: Seq<char>, c: char) -> Seq<char> {
    match find_char(s, c) {
        Some(i) => s.subrange(i + 1, s.len() as int),
        None => Seq::empty(),
    }
}

/// `(before_first, after_first)` of `s` at `c`.
pub fn split_once_char(s: &str, c: char) -> (r: (String, String))
    ensures
        r.0@ == before_first(s@, c),
        r.1@ == after_first(s@, c),
{
    let v = chars_of(s);
    proof {
        lemma_find_props(v@, seq![c]);
    }
    match find_char_vec(&v, c) {
        Some(i) => {
            assert(seq![c].len() == 1);
            assert(i < v.len());
            (string_from_chars(slice_vec(&v, 0, i)), string_from_chars(slice_vec(&v, i + 1, v.len())))
        },
        None => (string_from_chars(v), string_from_chars(Vec::new())),
    }
}

/// The scheme a client used: the first entry of `X-Forwarded-Proto`, trimmed, or
/// `http`.
pub open spec fn request_scheme(forwarded_proto: Option<Seq<char>>) -> Seq<char> {
    match forwarded_proto {
        Some(v) => trim(before_first(v, ',')),
        None => "http"@,
    }
}

/// The host a client used: the first entry of `X-Forwarded-Host`, trimmed, else the
/// `Host` header, else `localhost`.
pub open spec fn request_host(forwarded_host: Option<Seq<char>>, host: Option<Seq<char>>) -> Seq<char> {
    match forwarded_host {
        Some(v) => trim(before_first(v, ',')),
        None => match host {
            Some(h) => h,
            None => "localhost"@,
        },
    }
}

/// The scheme of a request, from its readable `X-Forwarded-Proto` header if any.
pub fn scheme_from_request(forwarded_proto: Option<&str>) -> (r: String)
    ensures
        r@ == request_scheme(match forwarded_proto {
            Some(v) => Some(v@),
            None => None,
        }),
{
    match forwarded_proto {
        Some(v) => {
            let (first, _) = split_once_char(v, ',');
            let t = trim_vec(&chars_of(first.as_str()));
            string_from_chars(t)
        },
        None => string_from_chars(chars_of("http")),
    }
}

/// The host of a request, from its readable `X-Forwarded-Host` and `Host` headers.
pub fn host_from_request(forwarded_host: Option<&str>, host: Option<&str>) -> (r: String)
    ensures
        r@ == request_host(
            match forwarded_host {
                Some(v) => Some(v@),
                None => None,
            },
            match host {
                Some(v) => Some(v@),
                None => None,
            },
        ),
{
    match forwarded_host {
        Some(v) => {
            let (first, _) = split_once_char(v, ',');
            let t = trim_vec(&chars_of(first.as_str()));
            string_from_chars(t)
        },
        None => match host {
            Some(h) => string_from_chars(chars_of(h)),
            None => string_from_chars(chars_of("localhost")),
        },
    }
}

/// A stream served straight from a CDN rather than through the portal's `live.php`.
pub fn is_direct_cdn(stream_url: &str) -> (r: bool)
    ensures
        r == !contains(stream_url@, "/play/live.php"@),
{
    !contains_vec(&chars_of(stream_url), &chars_of("/play/live.php"))
}

/// The upstream address of a request for a channel: the stream address itself, or the
/// playlist's directory followed by the requested segment; moved to HTTPS.
pub open spec fn segment_url_of(stream_url: Seq<char>, suffix: Seq<char>) -> Seq<char> {
    https_upgraded(if suffix.len() == 0 {
        stream_url
    } else {
        hls_root_of(stream_url) + suffix
    })
}

pub fn segment_url(stream_url: &str, suffix: &str) -> (r: String)
    ensures
        r@ == segment_url_of(stream_url@, suffix@),
{
    if chars_of(suffix).len() == 0 {
        upgrade_to_https(stream_url)
    } else {
        let root = get_hls_root_for_url(stream_url);
        let mut v = chars_of(root.as_str());
        push_str(&mut v, suffix);
        let joined = string_from_chars(v);
        upgrade_to_https(joined.as_str())
    }
}

/// The first channel whose renamed title is `title`.
pub fn find_channel_by_title(channels: &Vec<ChannelState>, filter: &FilterStore, profile_id: i32, title: &str) -> (r: Option<usize>)
    ensures
        match r {
            Some(i) => i < channels@.len() && filter.model().apply_rename(profile_id, channels@[i as int].info.title@) == title@
                && forall|j: int| 0 <= j < i ==> filter.model().apply_rename(profile_id, #[trigger] channels@[j].info.title@) != title@,
            None => forall|j: int| 0 <= j < channels@.len() ==> filter.model().apply_rename(profile_id, #[trigger] channels@[j].info.title@) != title@,
        },
{
    let mut i: usize = 0;
    while i < channels.len()
        invariant
            i <= channels.len(),
            forall|j: int| 0 <= j < i ==> filter.model().apply_rename(profile_id, #[trigger] channels@[j].info.title@) != title@,
        decreases channels.len() - i,
    {
        let t = filter.apply_rename(profile_id, channels[i].info.title.as_str());
        if crate::text::str_eq(t.as_str(), title) {
            return Some(i);
        }
        i += 1;
    }
    None
}


// ---------------------------------------------------------------------------
// Requests of the player
// ---------------------------------------------------------------------------

/// The channel and the rest of a request path: the percent-decoded text before the
/// first `/`, and what follows it (empty where there is no `/`).
pub open spec fn channel_path_of(path: Seq<char>) -> (Seq<char>, Seq<char>) {
    (
        crate::encoding::lossy_text(crate::encoding::percent_decode(before_first(path, '/'))),
        after_first(path, '/'),
    )
}

pub fn channel_path(path: &str) -> (r: (String, String))
    ensures
        (r.0@, r.1@) == channel_path_of(path@),
{
    let (head, tail) = split_once_char(path, '/');
    let title = crate::encoding::url_decode(head.as_str());
    (title, tail)
}

/// The index a channel title maps to: the last channel with exactly that title.
pub open spec fn title_index_of(chs: Seq<ChannelState>, title: Seq<char>) -> Option<int>
    decreases chs.len(),
{
    if chs.len() == 0 {
        None
    } else if chs.last().info.title@ == title {
        Some(chs.len() - 1)
    } else {
        title_index_of(chs.drop_last(), title)
    }
}

/// The channel with exactly the given title (the last one where several have it).
pub fn title_index(channels: &Vec<ChannelState>, title: &str) -> (r: Option<usize>)
    ensures
        match r {
            Some(i) => title_index_of(channels@, title@) == Some(i as int),
            None => title_index_of(channels@, title@) is None,
        },
{
    let mut i: usize = channels.len();
    assert(channels@.subrange(0, channels@.len() as int) =~= channels@);
    while i > 0
        invariant
            i <= channels.len(),
            title_index_of(channels@, title@) == title_index_of(channels@.subrange(0, i as int), title@),
        decreases i,
    {
        let ghost pre = channels@.subrange(0, i as int);
        assert(pre.drop_last() =~= channels@.subrange(0, i - 1));
        assert(pre.last() == channels@[i - 1]);
        if crate::text::str_eq(channels[i - 1].info.title.as_str(), title) {
            return Some(i - 1);
        }
        i -= 1;
    }
    None
}

/// The channel a player asks for: the one with exactly that title, else the first
/// whose renamed title it is.
pub fn locate_channel(channels: &Vec<ChannelState>, filter: &FilterStore, profile_id: i32, title: &str) -> (r: Option<usize>)
    ensures
        title_index_of(channels@, title@) matches Some(i) ==> r == Some(i as usize),
        title_index_of(channels@, title@) is None ==> match r {
            Some(i) => i < channels@.len() && filter.model().apply_rename(profile_id, channels@[i as int].info.title@) == title@
                && forall|j: int| 0 <= j < i ==> filter.model().apply_rename(profile_id, #[trigger] channels@[j].info.title@) != title@,
            None => forall|j: int| 0 <= j < channels@.len() ==> filter.model().apply_rename(profile_id, #[trigger] channels@[j].info.title@) != title@,
        },
{
    match title_index(channels, title) {
        Some(i) => Some(i),
        None => find_channel_by_title(channels, filter, profile_id, title),
    }
}

/// The headers of a stream request: a MAG254 User-Agent of the given model, the cookie
/// with serial, MAC and European time zone, and `Accept: */*`.
pub open spec fn stream_headers_of(model: Seq<char>, serial: Seq<char>, mac: Seq<char>, tz: Seq<char>) -> Seq<(Seq<char>, Seq<char>)> {
    seq![
        ("User-Agent"@, "Mozilla/5.0 (QtEmbedded; U; Linux; C) AppleWebKit/533.3 (KHTML, like Gecko) "@ + model
            + " stbapp ver: 4 rev: 250 Mobile Safari/533.3"@),
        ("Cookie"@, "PHPSESSID=null; sn="@ + serial + "; mac="@ + mac + "; stb_lang=en; timezone="@ + tz + ";"@),
        ("Accept"@, "*/*"@),
    ]
}

pub fn stream_headers(model: &str, serial: &str, mac: &str, tz: &str) -> (r: Vec<(String, String)>)
    ensures
        crate::proxy::pairs_view(r@) == stream_headers_of(model@, serial@, mac@, tz@),
{
    let mut ua = chars_of("Mozilla/5.0 (QtEmbedded; U; Linux; C) AppleWebKit/533.3 (KHTML, like Gecko) ");
    push_str(&mut ua, model);
    push_str(&mut ua, " stbapp ver: 4 rev: 250 Mobile Safari/533.3");
    let mut cookie = chars_of("PHPSESSID=null; sn=");
    push_str(&mut cookie, serial);
    push_str(&mut cookie, "; mac=");
    push_str(&mut cookie, mac);
    push_str(&mut cookie, "; stb_lang=en; timezone=");
    push_str(&mut cookie, tz);
    push_str(&mut cookie, ";");
    let r = vec![
        (string_from_chars(chars_of("User-Agent")), string_from_chars(ua)),
        (string_from_chars(chars_of("Cookie")), string_from_chars(cookie)),
        (string_from_chars(chars_of("Accept")), string_from_chars(chars_of("*/*"))),
    ];
    assert(crate::proxy::pairs_view(r@) =~= stream_headers_of(model@, serial@, mac@, tz@));
    r
}

/// The handshake that warms up the connection to a stream host before the first fetch.
pub open spec fn warmup_url_of(host: Seq<char>) -> Seq<char> {
    "https://"@ + host + "/portal.php?type=stb&action=handshake&JsHttpRequest=1-xml"@
}

pub fn warmup_url(host: &str) -> (r: String)
    ensures
        r@ == warmup_url_of(host@),
{
    let mut out = chars_of("https://");
    push_str(&mut out, host);
    push_str(&mut out, "/portal.php?type=stb&action=handshake&JsHttpRequest=1-xml");
    string_from_chars(out)
}

/// Whether a content type is that of an HLS playlist.
pub open spec fn is_mpegurl_of(content_type: Seq<char>) -> bool {
    contains(crate::proxy::ascii_lower(content_type), "mpegurl"@)
}

pub fn is_mpegurl(content_type: &str) -> (r: bool)
    ensures
        r == is_mpegurl_of(content_type@),
{
    let l = crate::proxy::ascii_lower_vec(&chars_of(content_type));
    contains_vec(&l, &chars_of("mpegurl"))
}

/// Which upstream headers an HLS answer passes on.
#[derive(Debug, Clone, Copy, PartialEq, Eq, Structural)]
pub enum HlsHeaders {
    /// Logos, the guide and direct CDN playlists.
    Passthrough,
    /// Playlists fetched through the portal.
    PortalPlaylist,
    /// Segments.
    Segment,
    /// Answers of the redirect-following fetch.
    Fetched,
}

/// Whether an HLS answer of the given kind drops an upstream header.
pub open spec fn hls_header_dropped(kind: HlsHeaders, name: Seq<char>) -> bool {
    let n = crate::proxy::ascii_lower(name);
    let hop = n == "host"@ || n == "connection"@ || n == "transfer-encoding"@ || n == "keep-alive"@ || n
        == "te"@ || n == "trailer"@ || n == "upgrade"@ || n == "content-encoding"@;
    match kind {
        HlsHeaders::Passthrough => hop || n == "content-length"@,
        HlsHeaders::PortalPlaylist => hop || n == "content-type"@,
        HlsHeaders::Segment => hop,
        HlsHeaders::Fetched => hop || n == "proxy-authorization"@ || n == "proxy-authenticate"@ || n
            == "content-type"@ || n == "content-length"@ || n == "access-control-allow-origin"@,
    }
}

pub fn hls_header_kept(kind: HlsHeaders, name: &str) -> (r: bool)
    ensures
        r == !hls_header_dropped(kind, name@),
{
    let l = string_from_chars(crate::proxy::ascii_lower_vec(&chars_of(name)));
    let n = l.as_str();
    let eq = |lit: &str| -> (b: bool)
        ensures
            b == (n@ == lit@),
    { crate::text::str_eq(n, lit) };
    let hop = eq("host") || eq("connection") || eq("transfer-encoding") || eq("keep-alive") || eq("te")
        || eq("trailer") || eq("upgrade") || eq("content-encoding");
    let dropped = match kind {
        HlsHeaders::Passthrough => hop || eq("content-length"),
        HlsHeaders::PortalPlaylist => hop || eq("content-type"),
        HlsHeaders::Segment => hop,
        HlsHeaders::Fetched => hop || eq("proxy-authorization") || eq("proxy-authenticate") || eq("content-type")
            || eq("content-length") || eq("access-control-allow-origin"),
    };
    !dropped
}

/// The guide request sent for the player: the portal base with the guide query.
pub open spec fn epg_info_url_of(portal_base: Seq<char>) -> Seq<char> {
    portal_base + "?type=itv&action=get_epg_info&period=5&JsHttpRequest=1-xml"@
}

pub fn epg_info_url(portal_base: &str) -> (r: String)
    ensures
        r@ == epg_info_url_of(portal_base@),
{
    let mut out = chars_of(portal_base);
    push_str(&mut out, "?type=itv&action=get_epg_info&period=5&JsHttpRequest=1-xml");
    string_from_chars(out)
}


/// The address the playlist gives a channel leads back to it: the path of its link
/// (the percent-encoded title) decodes to the title, with nothing after it.
pub proof fn law_playlist_link_resolves(title: Seq<char>)
    ensures
        channel_path_of(percent_encode(encode_utf8(title))) == (title, Seq::<char>::empty()),
{
    let p = percent_encode(encode_utf8(title));
    crate::encoding::lemma_percent_encode_no_slash(encode_utf8(title));
    crate::text::lemma_find_props(p, seq!['/']);
    if find_char(p, '/') is Some {
        let i = find_char(p, '/').unwrap();
        assert(p.subrange(i, i + 1) == seq!['/']);
        assert(p.subrange(i, i + 1)[0] == p[i]);
        assert(seq!['/'][0] == '/');
        assert(p[i] == '/');
    }
    crate::encoding::law_url_roundtrip(title);
}

/// How many redirections a stream fetch follows at most.
pub const MAX_FETCH_REDIRECTS: u32 = 200;

/// What a stream fetch does after an upstream answer.
#[derive(Debug, Clone, PartialEq, Eq)]
pub enum FetchStep {
    /// Ask the given address next.
    Follow(String),
    /// Hand this answer on to the player.
    Deliver,
    /// Fail the fetch: the redirection's `Location` header is no text.
    Fail,
}

/// The step after hop `hop` (counted from 0) at `url` brought an answer with `status`
/// and, where it sent one, a `Location` header (`None` inside where it is no text): a
/// redirection (3xx) is followed, its location resolved against the address, while fewer
/// than `MAX_FETCH_REDIRECTS` hops were made; any other answer, a redirection without a
/// location, or one past the limit is delivered.
pub open spec fn fetch_step_of(hop: u32, url: Seq<char>, status: u16, location: Option<Option<String>>, r: FetchStep) -> bool {
    if 300 <= status <= 399 && hop < MAX_FETCH_REDIRECTS {
        match location {
            Some(Some(d)) => r matches FetchStep::Follow(next) && next@ == crate::address::redirect_target_of(url, d@),
            Some(None) => r is Fail,
            None => r is Deliver,
        }
    } else {
        r is Deliver
    }
}

/// The step of the redirect loop of a stream fetch (see `fetch_step_of`).
pub fn fetch_step(hop: u32, url: &str, status: u16, location: Option<Option<String>>) -> (r: FetchStep)
    ensures
        fetch_step_of(hop, url@, status, location, r),
{
    if 300 <= status && status <= 399 && hop < MAX_FETCH_REDIRECTS {
        match location {
            Some(Some(d)) => FetchStep::Follow(crate::address::redirect_target(url, d.as_str())),
            Some(None) => FetchStep::Fail,
            None => FetchStep::Deliver,
        }
    } else {
        FetchStep::Deliver
    }
}

/// A stream fetch ends: at the last hop no redirection is followed, so the loop makes
/// at most `MAX_FETCH_REDIRECTS` + 1 requests.
pub proof fn law_fetch_redirects_end(url: Seq<char>, status: u16, location: Option<Option<String>>, r: FetchStep)
    requires
        fetch_step_of(MAX_FETCH_REDIRECTS, url, status, location, r),
    ensures
        !(r is Follow),
{
}

/// A tag line with a quoted `URI="..."` attribute keeps everything but the address: the
/// text up to and including the first `URI="`, and the closing quote with all that
/// follows it (further attributes such as `IV=`), stay as they were; only the quoted
/// address between them is put under `prefix` (its leading slashes dropped).
pub proof fn law_tag_keeps_all_but_the_uri(line: Seq<char>, prefix: Seq<char>, start: int, close: int)
    requires
        line.len() > 0,
        line[0] == '#',
        crate::text::occurs_at(line, "URI=\""@, start),
        forall|j: int| 0 <= j < start ==> !crate::text::occurs_at(line, "URI=\""@, j),
        start + 5 <= close < line.len(),
        line[close] == '"',
        forall|k: int| start + 5 <= k < close ==> line[k] != '"',
    ensures
        rewrite_line(line, prefix) == line.subrange(0, start + 5) + prefix + seq!['/'] + trim_start_char(
            line.subrange(start + 5, close),
            '/',
        ) + line.subrange(close, line.len() as int) + seq!['\n'],
{
    let uri_tag = seq!['U', 'R', 'I', '=', '"'];
    reveal_strlit("URI=\"");
    assert(uri_tag =~= "URI=\""@);
    lemma_find_props(line, uri_tag);
    assert(crate::text::occurs_at(line, uri_tag, start));
    match find(line, uri_tag) {
        Some(k) => {
            assert(crate::text::occurs_at(line, uri_tag, k));
            if k < start {
                assert(!crate::text::occurs_at(line, "URI=\""@, k));
            }
            if start < k {
                assert(!crate::text::occurs_at(line, uri_tag, start));
            }
        },
        None => {
            assert(!crate::text::occurs_at(line, uri_tag, start));
        },
    }
    assert(find(line, uri_tag) == Some(start));
    let rest = line.subrange(start + 5, line.len() as int);
    lemma_find_props(rest, seq!['"']);
    let e = close - (start + 5);
    assert(rest.subrange(e, e + 1) =~= seq!['"']);
    assert(crate::text::occurs_at(rest, seq!['"'], e));
    assert forall|j: int| 0 <= j < e implies !crate::text::occurs_at(rest, seq!['"'], j) by {
        assert(rest.subrange(j, j + 1)[0] == line[start + 5 + j]);
    }
    match find_char(rest, '"') {
        Some(k) => {
            assert(crate::text::occurs_at(rest, seq!['"'], k));
            if k < e {
                assert(rest.subrange(k, k + 1)[0] == line[start + 5 + k]);
            }
            if e < k {
                assert(!crate::text::occurs_at(rest, seq!['"'], e));
            }
        },
        None => {
            assert(!crate::text::occurs_at(rest, seq!['"'], e));
        },
    }
    assert(find_char(rest, '"') == Some(e));
    assert(rest.subrange(0, e) =~= line.subrange(start + 5, close));
    assert(line.subrange(0, start) + uri_tag =~= line.subrange(0, start + 5));
    assert(seq!['"'] + rest.subrange(e + 1, rest.len() as int) =~= line.subrange(close, line.len() as int));
}

/// Lines that hold no address pass through: an empty line stays empty, and a tag line
/// without `URI="` is kept exactly as it was; each ends with a line break.
pub proof fn law_lines_without_address_pass_through(line: Seq<char>, prefix: Seq<char>)
    requires
        line.len() == 0 || (line[0] == '#' && forall|j: int| 0 <= j ==> !crate::text::occurs_at(line, "URI=\""@, j)),
    ensures
        rewrite_line(line, prefix) == line + seq!['\n'],
{
    let uri_tag = seq!['U', 'R', 'I', '=', '"'];
    reveal_strlit("URI=\"");
    assert(uri_tag =~= "URI=\""@);
    lemma_find_props(line, uri_tag);
    if line.len() == 0 {
        assert(line + seq!['\n'] =~= seq!['\n']);
    } else {
        match find(line, uri_tag) {
            Some(k) => {
                assert(crate::text::occurs_at(line, uri_tag, k));
                assert(!crate::text::occurs_at(line, "URI=\""@, k));
            },
            None => {},
        }
    }
}

/// Rewriting two runs of lines one after the other gives the two rewritten runs one
/// after the other: each line is rewritten on its own.
pub proof fn law_lines_rewrite_independently(a: Seq<Seq<char>>, b: Seq<Seq<char>>, prefix: Seq<char>)
    ensures
        rewrite_lines(a + b, prefix) == rewrite_lines(a, prefix) + rewrite_lines(b, prefix),
    decreases b.len(),
{
    if b.len() == 0 {
        assert(a + b =~= a);
    } else {
        law_lines_rewrite_independently(a, b.drop_last(), prefix);
        assert((a + b).drop_last() =~= a + b.drop_last());
        assert((a + b).last() == b.last());
    }
}

/// The group of a channel's playlist entry is the name the profile gives the channel's
/// genre id, where it gives a non-empty one, else the portal's genre name: the entry's
/// `#EXTINF` line runs up to `group-title="` and then holds that name and `", `.
pub proof fn law_entry_group_is_the_renamed_genre(
    m: crate::filter::FilterModel,
    pid: i32,
    ch: Channel,
    scheme: Seq<char>,
    host: Seq<char>,
)
    ensures
        ({
            let names = m.genre_renames_of(pid);
            let group = if names.contains_key(ch.genre_id@) && names[ch.genre_id@].len() > 0 {
                names[ch.genre_id@]
            } else {
                ch.genre@
            };
            let title = m.apply_rename(pid, ch.title@);
            let head = "#EXTINF:-1 tvg-id=\""@ + ch.cmd@ + "\" tvg-name=\""@ + title + "\" tvg-logo=\"/logo/"@
                + percent_encode(encode_utf8(title)) + "\" group-title=\""@;
            let entry = playlist_entry(m, pid, ch, scheme, host);
            &&& starts_with(entry, head)
            &&& starts_with(entry.subrange(head.len() as int, entry.len() as int), group + "\", "@)
        }),
{
    let names = m.genre_renames_of(pid);
    let group = if names.contains_key(ch.genre_id@) && names[ch.genre_id@].len() > 0 {
        names[ch.genre_id@]
    } else {
        ch.genre@
    };
    let title = m.apply_rename(pid, ch.title@);
    let enc = percent_encode(encode_utf8(title));
    let head = "#EXTINF:-1 tvg-id=\""@ + ch.cmd@ + "\" tvg-name=\""@ + title + "\" tvg-logo=\"/logo/"@ + enc
        + "\" group-title=\""@;
    let tail = title + seq!['\n'] + scheme + "://"@ + host + seq!['/'] + enc + seq!['\n'];
    let entry = playlist_entry(m, pid, ch, scheme, host);
    assert(entry =~= head + (group + "\", "@) + tail);
    assert(entry.subrange(0, head.len() as int) =~= head);
    assert(entry.subrange(head.len() as int, entry.len() as int) =~= (group + "\", "@) + tail);
    assert(entry.subrange(head.len() as int, entry.len() as int).subrange(0, (group + "\", "@).len() as int) =~= group
        + "\", "@);
}

} // verus!
