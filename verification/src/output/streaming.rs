//! What a broadcast is published with, and what of its address may be shown.
use vstd::prelude::*;
use vstd::string::*;

use crate::output::session::{has_codec, has_encoder};
use crate::settings::{RecordingAudioCodec, RecordingEncoder, StreamingSettings};
use crate::text::{chars_of, string_of};

verus! {

/// What is said where there is no address to publish to.
pub const NO_ADDRESS: &'static str = "set a server address and a stream key first";

/// What is said where no audio codec can be opened.
pub const NO_AUDIO_CODEC: &'static str = "this build has no audio codec a broadcast can carry";

/// What is said where no encoder can be opened.
pub const NO_ENCODER: &'static str = "this machine has no encoder a broadcast can use";

/// A choice where it can be opened, and otherwise the first that can.
pub open spec fn or_first<T>(chosen: T, openable: Seq<T>) -> T {
    if openable.contains(chosen) {
        chosen
    } else {
        openable[0]
    }
}

/// The settings a broadcast is published with, against what can be opened
/// here; or why there can be none.
pub fn connect(
    settings: StreamingSettings,
    codecs: &Vec<RecordingAudioCodec>,
    encoders: &Vec<RecordingEncoder>,
) -> (r: Result<StreamingSettings, String>)
    ensures
        match r {
            Ok(usable) => {
                &&& settings.addressable
                &&& codecs@.len() > 0
                &&& encoders@.len() > 0
                &&& usable == (StreamingSettings {
                    audio_codec: or_first(settings.audio_codec, codecs@),
                    encoder: or_first(settings.encoder, encoders@),
                    ..settings
                })
            },
            Err(reason) => if !settings.addressable {
                reason@ == NO_ADDRESS@
            } else if codecs@.len() == 0 {
                reason@ == NO_AUDIO_CODEC@
            } else {
                encoders@.len() == 0 && reason@ == NO_ENCODER@
            },
        },
{
    let mut settings = settings;
    if !settings.addressable {
        return Err(NO_ADDRESS.to_owned());
    }
    if !has_codec(codecs, settings.audio_codec) {
        if codecs.len() == 0 {
            return Err(NO_AUDIO_CODEC.to_owned());
        }
        settings.audio_codec = codecs[0];
    }
    if !has_encoder(encoders, settings.encoder) {
        if encoders.len() == 0 {
            return Err(NO_ENCODER.to_owned());
        }
        settings.encoder = encoders[0];
    }
    Ok(settings)
}

/// Whether a character is white space.
pub open spec fn white(c: char) -> bool {
    ||| '\u{9}' <= c <= '\u{d}'
    ||| c == '\u{20}'
    ||| c == '\u{85}'
    ||| c == '\u{a0}'
    ||| c == '\u{1680}'
    ||| '\u{2000}' <= c <= '\u{200a}'
    ||| c == '\u{2028}'
    ||| c == '\u{2029}'
    ||| c == '\u{202f}'
    ||| c == '\u{205f}'
    ||| c == '\u{3000}'
}

/// Whether a character is white space.
pub fn is_white(c: char) -> (r: bool)
    ensures
        r == white(c),
{
    ('\u{9}' <= c && c <= '\u{d}') || c == '\u{20}' || c == '\u{85}' || c == '\u{a0}' || c
        == '\u{1680}' || ('\u{2000}' <= c && c <= '\u{200a}') || c == '\u{2028}' || c
        == '\u{2029}' || c == '\u{202f}' || c == '\u{205f}' || c == '\u{3000}'
}

/// A text without the white space before it.
pub open spec fn without_lead(s: Seq<char>) -> Seq<char>
    decreases s.len(),
{
    if s.len() > 0 && white(s[0]) {
        without_lead(s.skip(1))
    } else {
        s
    }
}

/// A text without the white space after it.
pub open spec fn without_tail(s: Seq<char>) -> Seq<char>
    decreases s.len(),
{
    if s.len() > 0 && white(s.last()) {
        without_tail(s.drop_last())
    } else {
        s
    }
}

/// A text without the slashes at its end.
pub open spec fn without_slashes(s: Seq<char>) -> Seq<char>
    decreases s.len(),
{
    if s.len() > 0 && s.last() == '/' {
        without_slashes(s.drop_last())
    } else {
        s
    }
}

/// An address without the white space round it and the slashes at its end.
pub open spec fn trimmed(s: Seq<char>) -> Seq<char> {
    without_slashes(without_tail(without_lead(s)))
}

/// The first slash at or after a position.
pub open spec fn slash_from(s: Seq<char>, i: int) -> Option<int>
    decreases s.len() - i,
{
    if i < 0 || i >= s.len() {
        None
    } else if s[i] == '/' {
        Some(i)
    } else {
        slash_from(s, i + 1)
    }
}

/// Whether what stands before two slashes can be a scheme: it ends in a colon,
/// or has no colon and no dot, which would make it a host.
pub open spec fn can_be_scheme(s: Seq<char>) -> bool {
    s.len() == 0 || s.last() == ':' || !(s.contains(':') || s.contains('.'))
}

/// Where the host begins: after the scheme and its two slashes, where the first
/// slash is one of those, and otherwise at once.
pub open spec fn host_start(s: Seq<char>) -> int {
    match slash_from(s, 0) {
        Some(i) if i + 1 < s.len() && s[i + 1] == '/' && can_be_scheme(s.take(i)) => i + 2,
        _ => 0,
    }
}

/// The slash that ends the application: the second after the host begins.
pub open spec fn end_of_application(s: Seq<char>) -> Option<int> {
    match slash_from(s, host_start(s)) {
        None => None,
        Some(host) => slash_from(s, host + 1),
    }
}

/// What of an address may be shown: the scheme where it has one, the host and
/// one segment of the path. Anything after that is where a key would be.
pub open spec fn shown(s: Seq<char>) -> Seq<char> {
    match end_of_application(s) {
        Some(end) => s.take(end) + "/\u{2026}"@,
        None => s,
    }
}

fn find_slash(s: &Vec<char>, from: usize, to: usize) -> (r: Option<usize>)
    requires
        to <= s@.len(),
    ensures
        match r {
            Some(i) => from <= i < to && slash_from(s@.take(to as int), from as int) == Some(
                i as int,
            ),
            None => slash_from(s@.take(to as int), from as int) is None,
        },
{
    let ghost t = s@.take(to as int);
    let mut i: usize = from;
    while i < to
        invariant
            from <= i,
            to <= s@.len(),
            t == s@.take(to as int),
            slash_from(t, from as int) == slash_from(t, i as int),
        decreases to - i,
    {
        if s[i] == '/' {
            return Some(i);
        }
        i = i + 1;
    }
    None
}

fn before_can_be_scheme(s: &Vec<char>, to: usize) -> (r: bool)
    requires
        to <= s@.len(),
    ensures
        r == can_be_scheme(s@.take(to as int)),
{
    let ghost scheme = s@.take(to as int);
    if to == 0 || s[to - 1] == ':' {
        return true;
    }
    proof {
        assert(scheme.last() == s@[to - 1]);
    }
    let mut i: usize = 0;
    while i < to
        invariant
            i <= to <= s@.len(),
            scheme == s@.take(to as int),
            scheme.len() > 0,
            scheme.last() != ':',
            forall|j: int| 0 <= j < i ==> scheme[j] != ':' && scheme[j] != '.',
        decreases to - i,
    {
        if s[i] == ':' || s[i] == '.' {
            proof {
                assert(scheme[i as int] == s@[i as int]);
                assert(scheme.contains(scheme[i as int]));
            }
            return false;
        }
        i = i + 1;
    }
    true
}

fn find_host(s: &Vec<char>) -> (r: usize)
    ensures
        r == host_start(s@),
        r <= s@.len(),
{
    let len: usize = s.len();
    proof {
        assert(s@.take(len as int) =~= s@);
    }
    match find_slash(s, 0, len) {
        Some(i) => {
            if i + 1 < len && s[i + 1] == '/' && before_can_be_scheme(s, i) {
                i + 2
            } else {
                0
            }
        },
        None => 0,
    }
}

/// A server address with anything past the application removed.
pub fn redacted(server: &str) -> (r: String)
    ensures
        r@ == shown(trimmed(server@)),
{
    let all = chars_of(server);
    let mut from: usize = 0;
    proof {
        assert(all@.skip(0) =~= all@);
    }
    while from < all.len() && is_white(all[from])
        invariant
            from <= all@.len(),
            all@ == server@,
            without_lead(all@) == without_lead(all@.skip(from as int)),
        decreases all@.len() - from,
    {
        proof {
            assert(all@.skip(from as int).skip(1) =~= all@.skip(from + 1));
        }
        from = from + 1;
    }
    let ghost lead = without_lead(all@);
    proof {
        assert(lead == all@.skip(from as int));
        assert(all@.subrange(from as int, all@.len() as int) =~= lead);
    }
    let mut to: usize = all.len();
    while to > from && is_white(all[to - 1])
        invariant
            from <= to <= all@.len(),
            lead == all@.skip(from as int),
            without_tail(lead) == without_tail(all@.subrange(from as int, to as int)),
        decreases to,
    {
        proof {
            assert(all@.subrange(from as int, to as int).drop_last() =~= all@.subrange(
                from as int,
                to - 1,
            ));
        }
        to = to - 1;
    }
    let ghost inner = without_tail(lead);
    proof {
        assert(inner == all@.subrange(from as int, to as int));
    }
    while to > from && all[to - 1] == '/'
        invariant
            from <= to <= all@.len(),
            without_slashes(inner) == without_slashes(all@.subrange(from as int, to as int)),
        decreases to,
    {
        proof {
            assert(all@.subrange(from as int, to as int).drop_last() =~= all@.subrange(
                from as int,
                to - 1,
            ));
        }
        to = to - 1;
    }
    let text = string_of(&all, from, to);
    let ghost t = trimmed(server@);
    proof {
        assert(text@ == t);
    }
    let kept = chars_of(text.as_str());
    let len: usize = kept.len();
    proof {
        assert(kept@.take(len as int) =~= t);
    }
    let start: usize = find_host(&kept);
    let host: usize = match find_slash(&kept, start, len) {
        Some(host) => host,
        None => {
            return text;
        },
    };
    match find_slash(&kept, host + 1, len) {
        Some(end) => {
            let mut r = string_of(&kept, 0, end);
            r.append("/\u{2026}");
            proof {
                assert(kept@.subrange(0, end as int) =~= t.take(end as int));
            }
            r
        },
        None => text,
    }
}

/// The first slash at or after a position depends on nothing beyond it.
proof fn lemma_slash_prefix(s: Seq<char>, t: Seq<char>, i: int, end: int)
    requires
        slash_from(s, i) == Some(end),
        0 <= i,
        end < t.len(),
        s.take(end + 1) == t.take(end + 1),
    ensures
        slash_from(t, i) == Some(end),
    decreases s.len() - i,
{
    lemma_slash_at(s, i, end);
    assert(s.take(end + 1)[i] == s[i]);
    assert(t.take(end + 1)[i] == t[i]);
    if s[i] != '/' {
        lemma_slash_prefix(s, t, i + 1, end);
    }
}

proof fn lemma_slash_at(s: Seq<char>, i: int, end: int)
    requires
        slash_from(s, i) == Some(end),
        0 <= i,
    ensures
        i <= end < s.len(),
        s[end] == '/',
    decreases s.len() - i,
{
    if s[i] != '/' {
        lemma_slash_at(s, i + 1, end);
    }
}

/// What stands after the application is not shown, whether the address has a
/// scheme or not: two addresses that agree up to the slash after it are shown
/// alike, whatever follows.
pub proof fn law_what_follows_the_application_is_not_shown(s: Seq<char>, t: Seq<char>, end: int)
    requires
        end_of_application(s) == Some(end),
        end < t.len(),
        s.take(end + 1) == t.take(end + 1),
    ensures
        shown(s) == shown(t),
        shown(s) == s.take(end) + "/\u{2026}"@,
{
    let start = host_start(s);
    let host = slash_from(s, start)->0;
    lemma_slash_at(s, host + 1, end);
    lemma_slash_at(s, start, host);
    let first = slash_from(s, 0)->0;
    lemma_first_slash(s, start);
    lemma_slash_at(s, 0, first);
    assert forall|i: int| 0 <= i <= end implies s[i] == t[i] by {
        assert(s.take(end + 1)[i] == s[i]);
        assert(t.take(end + 1)[i] == t[i]);
    }
    assert(s.take(first + 1) =~= t.take(first + 1));
    assert(s.take(host + 1) =~= t.take(host + 1));
    lemma_slash_prefix(s, t, 0, first);
    assert(s.take(first) =~= t.take(first));
    assert(host_start(t) == start);
    lemma_slash_prefix(s, t, start, host);
    lemma_slash_prefix(s, t, host + 1, end);
    assert(s.take(end) =~= t.take(end));
}

/// What is shown of an address is its scheme, its host and its application, and
/// a mark for whatever stands behind them, however much that is. What stops
/// before that is shown whole.
pub proof fn law_an_address_is_shown_as_far_as_its_application(
    scheme: Seq<char>,
    host: Seq<char>,
    application: Seq<char>,
    rest: Seq<char>,
)
    requires
        can_be_scheme(scheme),
        !scheme.contains('/'),
        !host.contains('/'),
        !application.contains('/'),
    ensures
        shown(scheme + "//"@ + host) == scheme + "//"@ + host,
        shown(scheme + "//"@ + host + "/"@ + application) == scheme + "//"@ + host + "/"@
            + application,
        shown(scheme + "//"@ + host + "/"@ + application + "/"@ + rest) == scheme + "//"@ + host
            + "/"@ + application + "/\u{2026}"@,
{
    reveal_strlit("/");
    reveal_strlit("//");
    let named = scheme + "//"@ + host;
    let reached = named + "/"@ + application;
    let whole = reached + "/"@ + rest;
    let i = scheme.len() as int;
    let h = named.len() as int;
    let end = reached.len() as int;
    lemma_no_slash(named, scheme, 0);
    lemma_no_slash(reached, scheme, 0);
    lemma_no_slash(whole, scheme, 0);
    assert(named.take(i) =~= scheme);
    assert(reached.take(i) =~= scheme);
    assert(whole.take(i) =~= scheme);
    lemma_no_slash(named, host, i + 2);
    lemma_no_slash(reached, host, i + 2);
    lemma_no_slash(whole, host, i + 2);
    lemma_no_slash(reached, application, h + 1);
    lemma_no_slash(whole, application, h + 1);
    assert(whole.take(end) =~= reached);
}

/// An address without a scheme is shown as far as its application too.
pub proof fn law_an_address_without_a_scheme_is_shown_as_far(
    host: Seq<char>,
    application: Seq<char>,
    rest: Seq<char>,
)
    requires
        !host.contains('/'),
        !application.contains('/'),
        application.len() > 0 || !can_be_scheme(host),
    ensures
        shown(host) == host,
        shown(host + "/"@ + application) == host + "/"@ + application,
        shown(host + "/"@ + application + "/"@ + rest) == host + "/"@ + application
            + "/\u{2026}"@,
{
    reveal_strlit("/");
    let reached = host + "/"@ + application;
    let whole = reached + "/"@ + rest;
    let h = host.len() as int;
    lemma_no_slash(host, host, 0);
    lemma_no_slash(reached, host, 0);
    lemma_no_slash(whole, host, 0);
    assert(reached.take(h) =~= host);
    assert(whole.take(h) =~= host);
    lemma_no_slash(reached, application, h + 1);
    lemma_no_slash(whole, application, h + 1);
    if application.len() > 0 {
        assert(application.contains(application[0]));
    }
    assert(whole.take(reached.len() as int) =~= reached);
}

/// What is pasted with a key behind the application is shown without it: white
/// space before it and slashes after it make no difference.
pub proof fn law_a_pasted_key_is_not_shown(
    scheme: Seq<char>,
    host: Seq<char>,
    application: Seq<char>,
    key: Seq<char>,
)
    requires
        can_be_scheme(scheme),
        !scheme.contains('/'),
        !host.contains('/'),
        !application.contains('/'),
        scheme.len() > 0 ==> !white(scheme[0]),
        exists|i: int| 0 <= i < key.len() && key[i] != '/',
        !white(key.last()),
    ensures
        shown(trimmed(scheme + "//"@ + host + "/"@ + application + "/"@ + key)) == scheme + "//"@
            + host + "/"@ + application + "/\u{2026}"@,
{
    reveal_strlit("/");
    reveal_strlit("//");
    let before = scheme + "//"@ + host + "/"@ + application + "/"@;
    let whole = before + key;
    let kept = without_slashes(key);
    assert(whole[0] == before[0]);
    assert(whole.last() == key.last());
    lemma_slashes_off(before, key);
    law_an_address_is_shown_as_far_as_its_application(scheme, host, application, kept);
}

/// Slashes are taken off the end of what stands behind a text, not off the
/// text, where anything else stands there.
proof fn lemma_slashes_off(before: Seq<char>, s: Seq<char>)
    requires
        exists|i: int| 0 <= i < s.len() && s[i] != '/',
    ensures
        without_slashes(before + s) == before + without_slashes(s),
    decreases s.len(),
{
    assert((before + s).last() == s.last());
    if s.last() == '/' {
        let i = choose|i: int| 0 <= i < s.len() && s[i] != '/';
        assert(s.drop_last()[i] == s[i]);
        assert((before + s).drop_last() =~= before + s.drop_last());
        lemma_slashes_off(before, s.drop_last());
    }
}

/// The first slash from where a text without one begins is the one behind it.
proof fn lemma_no_slash(s: Seq<char>, part: Seq<char>, i: int)
    requires
        0 <= i,
        i + part.len() <= s.len(),
        forall|j: int| 0 <= j < part.len() ==> #[trigger] part[j] == s[i + j],
        !part.contains('/'),
    ensures
        slash_from(s, i) == slash_from(s, i + part.len()),
    decreases part.len(),
{
    if part.len() > 0 {
        assert(part[0] == s[i]);
        assert(part.contains(part[0]));
        let left = part.skip(1);
        assert forall|j: int| 0 <= j < left.len() implies #[trigger] left[j] == s[i + 1 + j] by {
            assert(left[j] == part[j + 1]);
        }
        assert(!left.contains('/')) by {
            if left.contains('/') {
                let j = left.index_of('/');
                assert(part[j + 1] == '/');
            }
        }
        lemma_no_slash(s, left, i + 1);
    }
}

/// Where there is a slash after the host begins, there is a first one.
proof fn lemma_first_slash(s: Seq<char>, i: int)
    requires
        slash_from(s, i) is Some,
        0 <= i,
    ensures
        slash_from(s, 0) is Some,
        slash_from(s, 0)->0 <= slash_from(s, i)->0,
    decreases i,
{
    if i > 0 {
        if s[i - 1] == '/' {
            assert(slash_from(s, i - 1) == Some(i - 1));
            lemma_slash_at(s, i, slash_from(s, i)->0);
        }
        lemma_first_slash(s, i - 1);
    }
}

/// A choice that opens is kept, and one that does not gives way to the first
/// that does.
pub proof fn law_a_broadcast_takes_what_opens<T>(chosen: T, openable: Seq<T>)
    ensures
        openable.contains(chosen) ==> or_first(chosen, openable) == chosen,
        !openable.contains(chosen) ==> or_first(chosen, openable) == openable[0],
        openable.len() > 0 ==> openable.contains(or_first(chosen, openable)),
{
    if openable.len() > 0 {
        assert(openable.contains(openable[0]));
    }
}

/// What counts as white space.
pub proof fn law_white_space(c: char)
    ensures
        white(c) <==> {
            let code = c as u32;
            ||| 0x9 <= code <= 0xd
            ||| code == 0x20
            ||| code == 0x85
            ||| code == 0xa0
            ||| code == 0x1680
            ||| 0x2000 <= code <= 0x200a
            ||| code == 0x2028
            ||| code == 0x2029
            ||| code == 0x202f
            ||| code == 0x205f
            ||| code == 0x3000
        },
{
}

/// White space round an address is dropped, and so are slashes at its end; an
/// address with neither is kept as it is.
pub proof fn law_an_address_is_trimmed(s: Seq<char>, c: char)
    requires
        s.len() > 0,
        !white(s[0]),
        !white(s.last()),
    ensures
        s.last() != '/' ==> trimmed(s) == s,
        white(c) ==> trimmed(seq![c] + s) == trimmed(s),
        white(c) ==> trimmed(s.push(c)) == trimmed(s),
        trimmed(s.push('/')) == trimmed(s),
{
    let led = seq![c] + s;
    assert(led.skip(1) =~= s);
    assert(led[0] == c);
    assert(without_lead(s) == s);
    assert(without_tail(s) == s);
    let tailed = s.push(c);
    assert(tailed.drop_last() =~= s);
    assert(tailed[0] == s[0]);
    assert(tailed.last() == c);
    let slashed = s.push('/');
    assert(slashed.drop_last() =~= s);
    assert(slashed[0] == s[0]);
    assert(!white('/'));
    assert(without_lead(slashed) == slashed);
    assert(without_tail(slashed) == slashed);
}

/// What stands before two slashes is a scheme where it is nothing, ends in a
/// colon, or has neither a colon nor a dot; and no host or address is.
pub proof fn law_what_can_be_a_scheme(s: Seq<char>)
    ensures
        can_be_scheme(Seq::empty()),
        can_be_scheme(s.push(':')),
        s.len() > 0 && s.last() != ':' && (s.contains(':') || s.contains('.')) ==> !can_be_scheme(
            s,
        ),
        !s.contains(':') && !s.contains('.') ==> can_be_scheme(s),
{
    assert(s.push(':').last() == ':');
}

/// An address of nothing but white space is no address.
pub proof fn law_white_space_alone_is_no_address(s: Seq<char>)
    requires
        forall|i: int| 0 <= i < s.len() ==> white(#[trigger] s[i]),
    ensures
        trimmed(s).len() == 0,
    decreases s.len(),
{
    if s.len() > 0 {
        assert(white(s[0]));
        let rest = s.skip(1);
        assert forall|i: int| 0 <= i < rest.len() implies white(#[trigger] rest[i]) by {
            assert(white(s[i + 1]));
        }
        law_white_space_alone_is_no_address(rest);
    }
}

/// White space at the end of an address is dropped with everything before it
/// kept.
pub proof fn law_white_space_at_the_end_is_dropped(s: Seq<char>, c: char)
    ensures
        white(c) ==> without_tail(s.push(c)) == without_tail(s),
        !white(c) ==> without_tail(s.push(c)) == s.push(c),
        white(c) ==> without_lead(seq![c] + s) == without_lead(s),
        !white(c) ==> without_lead(seq![c] + s) == seq![c] + s,
        without_slashes(s.push('/')) == without_slashes(s),
        c != '/' ==> without_slashes(s.push(c)) == s.push(c),
{
    assert(s.push(c).drop_last() =~= s);
    assert(s.push('/').drop_last() =~= s);
    assert((seq![c] + s).skip(1) =~= s);
}

} // verus!
