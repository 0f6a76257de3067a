//! Which encoder and codec a recording is made with, and how a failure is
//! told.
use vstd::prelude::*;
use vstd::string::*;

use crate::settings::{RecordingAudioCodec, RecordingEncoder, RecordingSettings};
use crate::text::{self, contains};

verus! {

/// Whether a list of codecs has one.
pub fn has_codec(list: &Vec<RecordingAudioCodec>, codec: RecordingAudioCodec) -> (r: bool)
    ensures
        r == list@.contains(codec),
{
    let mut i: usize = 0;
    while i < list.len()
        invariant
            i <= list@.len(),
            forall|j: int| 0 <= j < i ==> list@[j] != codec,
        decreases list@.len() - i,
    {
        if list[i] == codec {
            return true;
        }
        i = i + 1;
    }
    false
}

/// Whether a list of encoders has one.
pub fn has_encoder(list: &Vec<RecordingEncoder>, encoder: RecordingEncoder) -> (r: bool)
    ensures
        r == list@.contains(encoder),
{
    let mut i: usize = 0;
    while i < list.len()
        invariant
            i <= list@.len(),
            forall|j: int| 0 <= j < i ==> list@[j] != encoder,
        decreases list@.len() - i,
    {
        if list[i] == encoder {
            return true;
        }
        i = i + 1;
    }
    false
}

/// The codecs that can be opened among the first `n`.
pub open spec fn opened_among(all: Seq<RecordingAudioCodec>, opens: Seq<bool>, n: int) -> Seq<
    RecordingAudioCodec,
>
    decreases n,
{
    if n <= 0 {
        Seq::empty()
    } else if opens[n - 1] {
        opened_among(all, opens, n - 1).push(all[n - 1])
    } else {
        opened_among(all, opens, n - 1)
    }
}

/// Which audio codecs can be opened, given what came of opening each, in the
/// order they are offered.
pub fn available_audio_codecs(all: &Vec<RecordingAudioCodec>, opens: &Vec<bool>) -> (r: Vec<
    RecordingAudioCodec,
>)
    requires
        all@.len() == opens@.len(),
    ensures
        r@ == opened_among(all@, opens@, all@.len() as int),
{
    let mut r: Vec<RecordingAudioCodec> = Vec::new();
    let mut i: usize = 0;
    while i < all.len()
        invariant
            i <= all@.len(),
            all@.len() == opens@.len(),
            r@ == opened_among(all@, opens@, i as int),
        decreases all@.len() - i,
    {
        if opens[i] {
            r.push(all[i]);
        }
        i = i + 1;
    }
    r
}

/// A choice, or the best there is where the choice cannot be opened; the
/// choice itself where nothing can.
pub open spec fn choice<T>(chosen: T, openable: Seq<T>, best: Option<T>) -> T {
    if openable.contains(chosen) {
        chosen
    } else {
        match best {
            Some(best) => best,
            None => chosen,
        }
    }
}

/// The settings to record with: the stored ones, but for an audio codec and an
/// encoder that can be opened here. `best_codec` and `best_encoder` are the
/// best of those that can.
pub fn usable_settings(
    settings: RecordingSettings,
    codecs: &Vec<RecordingAudioCodec>,
    best_codec: Option<RecordingAudioCodec>,
    encoders: &Vec<RecordingEncoder>,
    best_encoder: Option<RecordingEncoder>,
) -> (r: RecordingSettings)
    ensures
        r == (RecordingSettings {
            audio_codec: choice(settings.audio_codec, codecs@, best_codec),
            encoder: choice(settings.encoder, encoders@, best_encoder),
            ..settings
        }),
{
    let mut settings = settings;
    if !has_codec(codecs, settings.audio_codec) {
        match best_codec {
            Some(codec) => {
                settings.audio_codec = codec;
            },
            None => {},
        }
    }
    if !has_encoder(encoders, settings.encoder) {
        match best_encoder {
            Some(encoder) => {
                settings.encoder = encoder;
            },
            None => {},
        }
    }
    settings
}

/// One line naming a failure and its first `n - 1` causes. A cause that is
/// quoted already is not repeated.
pub open spec fn described(causes: Seq<String>, n: int) -> Seq<char>
    decreases n,
{
    if n <= 1 {
        causes[0]@
    } else {
        let text = described(causes, n - 1);
        if text::occurs(text, causes[n - 1]@) {
            text
        } else {
            text + ": "@ + causes[n - 1]@
        }
    }
}

/// One line naming everything that went wrong, the outermost first.
pub fn describe(causes: &Vec<String>) -> (r: String)
    requires
        causes@.len() > 0,
    ensures
        r@ == described(causes@, causes@.len() as int),
{
    let mut text: String = causes[0].clone();
    let mut i: usize = 1;
    while i < causes.len()
        invariant
            1 <= i <= causes@.len(),
            text@ == described(causes@, i as int),
        decreases causes@.len() - i,
    {
        if !contains(text.as_str(), causes[i].as_str()) {
            text.append(": ");
            text.append(causes[i].as_str());
        }
        i = i + 1;
    }
    text
}

/// Every cause is named: it stands somewhere in the line.
pub proof fn law_every_cause_is_named(causes: Seq<String>, n: int, i: int)
    requires
        0 <= i < n <= causes.len(),
    ensures
        text::occurs(described(causes, n), causes[i]@),
    decreases n,
{
    let line = described(causes, n);
    if n <= 1 {
        assert(line.subrange(0, line.len() as int) =~= line);
        assert(crate::text::stands_at(line, causes[i]@, 0));
    } else {
        let text = described(causes, n - 1);
        let cause = causes[n - 1]@;
        if i < n - 1 {
            law_every_cause_is_named(causes, n - 1, i);
            let at = choose|at: int| crate::text::stands_at(text, causes[i]@, at);
            if !text::occurs(text, cause) {
                assert(line.subrange(at, at + causes[i]@.len()) =~= text.subrange(
                    at,
                    at + causes[i]@.len(),
                ));
            }
            assert(crate::text::stands_at(line, causes[i]@, at));
        } else if !text::occurs(text, cause) {
            let at = (text + ": "@).len() as int;
            assert(line.subrange(at, at + cause.len()) =~= cause);
            assert(crate::text::stands_at(line, cause, at));
        }
    }
}

/// What can be opened is never replaced.
pub proof fn law_a_choice_that_opens_is_kept<T>(chosen: T, openable: Seq<T>, best: Option<T>)
    requires
        openable.contains(chosen),
    ensures
        choice(chosen, openable, best) == chosen,
{
}

/// What opens is offered, in the order it is listed, and nothing else is.
pub proof fn law_a_codec_is_offered_where_it_opens(
    all: Seq<RecordingAudioCodec>,
    opens: Seq<bool>,
    codec: RecordingAudioCodec,
    n: int,
)
    requires
        n == all.len(),
        n == opens.len(),
    ensures
        opened_among(all, opens, 0).len() == 0,
        opened_among(all.push(codec), opens.push(true), n + 1) == opened_among(
            all,
            opens,
            n,
        ).push(codec),
        opened_among(all.push(codec), opens.push(false), n + 1) == opened_among(all, opens, n),
{
    lemma_opened_on(all, opens, codec, true, n);
    lemma_opened_on(all, opens, codec, false, n);
}

proof fn lemma_opened_on(
    all: Seq<RecordingAudioCodec>,
    opens: Seq<bool>,
    codec: RecordingAudioCodec,
    opened: bool,
    n: int,
)
    requires
        0 <= n <= all.len(),
        all.len() == opens.len(),
    ensures
        opened_among(all.push(codec), opens.push(opened), n) == opened_among(all, opens, n),
    decreases n,
{
    if n > 0 {
        lemma_opened_on(all, opens, codec, opened, n - 1);
        assert(all.push(codec)[n - 1] == all[n - 1]);
        assert(opens.push(opened)[n - 1] == opens[n - 1]);
    }
}

/// A choice that does not open gives way to the best that does, and stands
/// where nothing does.
pub proof fn law_a_choice_that_does_not_open_gives_way<T>(chosen: T, openable: Seq<T>, best: T)
    requires
        !openable.contains(chosen),
    ensures
        choice(chosen, openable, Some(best)) == best,
        choice(chosen, openable, None) == chosen,
{
}

/// A failure is told cause by cause, outermost first, and a cause that is told
/// already is not told again.
pub proof fn law_causes_are_told_in_turn(causes: Seq<String>, n: int)
    requires
        1 <= n < causes.len(),
    ensures
        described(causes, 1) == causes[0]@,
        text::occurs(described(causes, n), causes[n]@) ==> described(causes, n + 1) == described(
            causes,
            n,
        ),
        !text::occurs(described(causes, n), causes[n]@) ==> described(causes, n + 1) == described(
            causes,
            n,
        ) + ": "@ + causes[n]@,
{
}

} // verus!
