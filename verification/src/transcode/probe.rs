//! Checking what was observed of an output against its contract.
use vstd::prelude::*;

use crate::outside::{debug_quoted, debug_text, digits_value, number_error, number_of, parse_number};
use crate::text::{
    cat2, cat3, cat4, cat5, cat6, contains_text, decimal, decimal_text, has_part, lower, lowered, owned,
    owned_option, same_text, split, split_text, text_option,
};
use crate::transcode::ffmpeg::{avc1, avc1_contract, profile_name, texts};
use crate::transcode::types::{KindModel, MediaVariantKind, MediaVariantSpec, ProbeModel, ProbeResult, SpecModel};

verus! {

/// What the inspection of a media file shows.
#[derive(Clone, Debug)]
pub struct FfprobeOutput {
    pub streams: Vec<FfprobeStream>,
    pub format: FfprobeFormat,
}

/// What the inspection shows of one stream.
#[derive(Clone, Debug)]
pub struct FfprobeStream {
    pub codec_type: String,
    pub codec_name: String,
    pub profile: Option<String>,
    pub level: Option<u32>,
    pub width: Option<u32>,
    pub height: Option<u32>,
    pub bit_rate: Option<String>,
}

/// What the inspection shows of the container.
#[derive(Clone, Debug)]
pub struct FfprobeFormat {
    pub format_name: String,
}

/// One stream, in terms of texts.
#[verifier::ext_equal]
pub struct StreamModel {
    pub codec_type: Seq<char>,
    pub codec_name: Seq<char>,
    pub profile: Option<Seq<char>>,
    pub level: Option<u32>,
    pub width: Option<u32>,
    pub height: Option<u32>,
    pub bit_rate: Option<Seq<char>>,
}

impl View for FfprobeStream {
    type V = StreamModel;

    open spec fn view(&self) -> StreamModel {
        StreamModel {
            codec_type: self.codec_type@,
            codec_name: self.codec_name@,
            profile: text_option(self.profile),
            level: self.level,
            width: self.width,
            height: self.height,
            bit_rate: text_option(self.bit_rate),
        }
    }
}

/// The first stream of a kind.
pub open spec fn first_stream(streams: Seq<FfprobeStream>, kind: Seq<char>) -> Option<FfprobeStream>
    decreases streams.len(),
{
    if streams.len() == 0 {
        None
    } else if first_stream(streams.drop_last(), kind) is Some {
        first_stream(streams.drop_last(), kind)
    } else if streams.last().codec_type@ == kind {
        Some(streams.last())
    } else {
        None
    }
}

proof fn lemma_first_stays(streams: Seq<FfprobeStream>, kind: Seq<char>, n: int)
    requires
        0 <= n <= streams.len(),
        first_stream(streams.take(n), kind) is Some,
    ensures
        first_stream(streams, kind) == first_stream(streams.take(n), kind),
    decreases streams.len(),
{
    if n == streams.len() {
        assert(streams.take(n) =~= streams);
    } else {
        assert(streams.drop_last().take(n) =~= streams.take(n));
        lemma_first_stays(streams.drop_last(), kind, n);
    }
}

fn find_stream<'a>(streams: &'a Vec<FfprobeStream>, kind: &str) -> (r: Option<&'a FfprobeStream>)
    ensures
        match r {
            Some(stream) => first_stream(streams@, kind@) == Some(*stream),
            None => first_stream(streams@, kind@) is None,
        },
{
    for i in 0..streams.len()
        invariant
            first_stream(streams@.take(i as int), kind@) is None,
    {
        assert(streams@.take(i + 1).drop_last() =~= streams@.take(i as int));
        if same_text(streams[i].codec_type.as_str(), kind) {
            proof {
                lemma_first_stays(streams@, kind@, i + 1);
            }
            return Some(&streams[i]);
        }
    }
    assert(streams@.take(streams@.len() as int) =~= streams@);
    None
}

/// An optional number in debug notation.
pub open spec fn debug_number(value: Option<u32>) -> Seq<char> {
    match value {
        Some(value) => "Some("@ + decimal(value as nat) + ")"@,
        None => "None"@,
    }
}

fn debug_number_text(value: Option<u32>) -> (r: String)
    ensures
        r@ == debug_number(value),
{
    match value {
        Some(value) => cat3("Some(", decimal_text(value as u64).as_str(), ")"),
        None => owned("None"),
    }
}

/// An optional text in debug notation.
pub open spec fn debug_option(text: Option<Seq<char>>) -> Seq<char> {
    match text {
        Some(text) => "Some("@ + debug_text(text) + ")"@,
        None => "None"@,
    }
}

fn debug_option_text(text: Option<&str>) -> (r: String)
    ensures
        r@ == debug_option(crate::text::str_option(text)),
{
    match text {
        Some(text) => cat3("Some(", debug_quoted(text).as_str(), ")"),
        None => owned("None"),
    }
}

/// What is asked of the streams of an output.
pub struct StreamContract {
    pub codec: Seq<char>,
    pub format: Option<Seq<char>>,
    pub requires_aac: bool,
    pub profile: Option<Seq<char>>,
    pub level: Option<u32>,
}

/// What a variant asks of the streams of its output.
pub open spec fn stream_contract(spec: SpecModel) -> Result<StreamContract, Seq<char>> {
    match spec.kind {
        KindModel::Transcode { .. } => match avc1(spec) {
            Ok(found) => Ok(
                StreamContract {
                    codec: "h264"@,
                    format: Some("mp4"@),
                    requires_aac: has_part(spec.codec, "mp4a."@),
                    profile: profile_name(found.profile_id),
                    level: Some(found.level),
                },
            ),
            Err(message) => Err(message),
        },
        _ => if spec.codec == "webp"@ || spec.codec == "mjpeg"@ || spec.codec == "png"@ {
            Ok(
                StreamContract {
                    codec: spec.codec,
                    format: None,
                    requires_aac: false,
                    profile: None,
                    level: None,
                },
            )
        } else if spec.codec == "jpeg"@ {
            Ok(
                StreamContract {
                    codec: "mjpeg"@,
                    format: None,
                    requires_aac: false,
                    profile: None,
                    level: None,
                },
            )
        } else {
            Err("unsupported image codec "@ + spec.codec)
        },
    }
}

/// Whether the profile and level of a stream are those asked for; the case of
/// letters in the profile does not matter.
pub open spec fn profile_matches(contract: StreamContract, video: StreamModel) -> bool {
    &&& contract.profile matches Some(profile) ==> video.profile is Some && lower(video.profile->0) == lower(profile)
    &&& contract.level is Some ==> video.level == contract.level
}

/// The bit rate that is reported for a stream under a limit, or what is wrong
/// with it.
pub open spec fn observed_bitrate(spec: SpecModel, video: StreamModel) -> Result<Option<u64>, Seq<char>> {
    match spec.bitrate_bps {
        None => Ok(None),
        Some(maximum) => match video.bit_rate {
            None => Err("variant "@ + spec.label + " has no video bitrate"@),
            Some(text) => match number_of(text) {
                Some(value) if value <= u64::MAX => if value == 0 || value > maximum {
                    Err(
                        "variant "@ + spec.label + " bitrate "@ + decimal(value as nat) + " exceeds contract maximum "@
                            + decimal(maximum as nat),
                    )
                } else {
                    Ok(Some(value as u64))
                },
                _ => Err("variant "@ + spec.label + " bitrate is invalid: "@ + number_error(text)),
            },
        },
    }
}

/// Why an output does not meet its contract, up to the bit rate.
pub open spec fn stream_fault(
    spec: SpecModel,
    video: StreamModel,
    audio: Option<FfprobeStream>,
    format_name: Seq<char>,
) -> Option<Seq<char>> {
    if video.width != spec.width || video.height != spec.height {
        Some(
            "variant "@ + spec.label + " dimensions "@ + debug_number(video.width) + "x"@ + debug_number(video.height)
                + " do not match "@ + debug_number(spec.width) + "x"@ + debug_number(spec.height),
        )
    } else {
        match stream_contract(spec) {
            Err(message) => Some(message),
            Ok(contract) => if video.codec_name != contract.codec {
                Some(
                    "variant "@ + spec.label + " codec "@ + video.codec_name + " does not match "@ + contract.codec,
                )
            } else if !profile_matches(contract, video) {
                Some(
                    "variant "@ + spec.label + " H.264 profile/level "@ + debug_option(video.profile) + "/"@
                        + debug_number(video.level) + " does not match "@ + debug_option(contract.profile) + "/"@
                        + debug_number(contract.level),
                )
            } else if contract.format is Some && !split(format_name, ',').contains(contract.format->0) {
                Some("variant "@ + spec.label + " container "@ + format_name + " is not "@ + contract.format->0)
            } else if contract.requires_aac && (audio is None || audio->0.codec_name@ != "aac"@) {
                Some("variant "@ + spec.label + " requires an AAC audio stream"@)
            } else {
                None
            },
        }
    }
}

/// What is reported of an output that meets its contract, or why it does not.
pub open spec fn probe_result(spec: SpecModel, streams: Seq<FfprobeStream>, format_name: Seq<char>) -> Result<
    ProbeModel,
    Seq<char>,
> {
    match first_stream(streams, "video"@) {
        None => Err("variant "@ + spec.label + " has no video/image stream"@),
        Some(video) => {
            let audio = first_stream(streams, "audio"@);
            match stream_fault(spec, video@, audio, format_name) {
                Some(message) => Err(message),
                None => match observed_bitrate(spec, video@) {
                    Err(message) => Err(message),
                    Ok(bitrate_bps) => Ok(
                        ProbeModel {
                            codec: spec.codec,
                            width: video.width,
                            height: video.height,
                            bitrate_bps,
                            observed_video_codec: video.codec_name@,
                            observed_video_profile: text_option(video.profile),
                            observed_video_level: video.level,
                            observed_audio_codec: match audio {
                                Some(stream) => Some(stream.codec_name@),
                                None => None,
                            },
                            observed_format: format_name,
                        },
                    ),
                },
            }
        },
    }
}

struct Expected {
    codec: &'static str,
    mp4: bool,
    requires_aac: bool,
    profile: Option<&'static str>,
    level: Option<u32>,
}

impl Expected {
    spec fn is(&self, contract: StreamContract) -> bool {
        &&& self.codec@ == contract.codec
        &&& contract.format == if self.mp4 { Some("mp4"@) } else { None }
        &&& self.requires_aac == contract.requires_aac
        &&& crate::text::str_option(self.profile) == contract.profile
        &&& self.level == contract.level
    }
}

fn expected_streams(spec: &MediaVariantSpec) -> (r: Result<Expected, String>)
    ensures
        match r {
            Ok(expected) => stream_contract(spec@) is Ok && expected.is(stream_contract(spec@)->Ok_0),
            Err(message) => stream_contract(spec@) is Err && stream_contract(spec@)->Err_0 == message@,
        },
{
    match &spec.kind {
        MediaVariantKind::Transcode { .. } => match avc1_contract(spec) {
            Ok(found) => Ok(
                Expected {
                    codec: "h264",
                    mp4: true,
                    requires_aac: contains_text(spec.codec.as_str(), "mp4a."),
                    profile: Some(found.profile),
                    level: Some(found.level),
                },
            ),
            Err(message) => Err(message),
        },
        _ => {
            let codec = spec.codec.as_str();
            let codec = if same_text(codec, "webp") {
                "webp"
            } else if same_text(codec, "jpeg") || same_text(codec, "mjpeg") {
                "mjpeg"
            } else if same_text(codec, "png") {
                "png"
            } else {
                return Err(cat2("unsupported image codec ", codec));
            };
            proof {
                reveal_strlit("jpeg");
                reveal_strlit("webp");
                reveal_strlit("mjpeg");
                reveal_strlit("png");
                assert("jpeg"@[0] == 'j' && "webp"@[0] == 'w' && "mjpeg"@[0] == 'm' && "png"@[0] == 'p');
            }
            Ok(Expected { codec, mp4: false, requires_aac: false, profile: None, level: None })
        },
    }
}

fn same_option(a: &Option<String>, b: &str) -> (r: bool)
    ensures
        r == (text_option(*a) is Some && lower(text_option(*a)->0) == lower(b@)),
{
    match a {
        Some(a) => same_text(lowered(a.as_str()).as_str(), lowered(b).as_str()),
        None => false,
    }
}

fn has_text(list: &Vec<String>, text: &str) -> (r: bool)
    ensures
        r == texts(list@).contains(text@),
{
    for i in 0..list.len()
        invariant
            forall|j: int| 0 <= j < i ==> list@[j]@ != text@,
    {
        if same_text(list[i].as_str(), text) {
            assert(texts(list@)[i as int] == text@);
            return true;
        }
    }
    assert forall|j: int| 0 <= j < list@.len() implies texts(list@)[j] != text@ by {
        assert(list@[j]@ != text@);
    }
    false
}

fn check_streams(
    spec: &MediaVariantSpec,
    video: &FfprobeStream,
    audio: Option<&FfprobeStream>,
    format_name: &str,
) -> (r: Result<(), String>)
    ensures
        match r {
            Ok(_) => stream_fault(
                spec@,
                video@,
                match audio {
                    Some(stream) => Some(*stream),
                    None => None,
                },
                format_name@,
            ) is None,
            Err(message) => stream_fault(
                spec@,
                video@,
                match audio {
                    Some(stream) => Some(*stream),
                    None => None,
                },
                format_name@,
            ) == Some(message@),
        },
{
    let label = spec.label.as_str();
    if video.width != spec.width || video.height != spec.height {
        let found = cat6(
            "variant ",
            label,
            " dimensions ",
            debug_number_text(video.width).as_str(),
            "x",
            debug_number_text(video.height).as_str(),
        );
        return Err(
            cat5(
                found.as_str(),
                " do not match ",
                debug_number_text(spec.width).as_str(),
                "x",
                debug_number_text(spec.height).as_str(),
            ),
        );
    }
    let expected = match expected_streams(spec) {
        Ok(expected) => expected,
        Err(message) => return Err(message),
    };
    if !same_text(video.codec_name.as_str(), expected.codec) {
        return Err(
            cat6("variant ", label, " codec ", video.codec_name.as_str(), " does not match ", expected.codec),
        );
    }
    let profile_ok = match expected.profile {
        Some(profile) => same_option(&video.profile, profile),
        None => true,
    };
    let level_ok = match expected.level {
        Some(_) => video.level == expected.level,
        None => true,
    };
    if !profile_ok || !level_ok {
        let profile = match &video.profile {
            Some(profile) => Some(profile.as_str()),
            None => None,
        };
        let found = cat6(
            "variant ",
            label,
            " H.264 profile/level ",
            debug_option_text(profile).as_str(),
            "/",
            debug_number_text(video.level).as_str(),
        );
        return Err(
            cat5(
                found.as_str(),
                " does not match ",
                debug_option_text(expected.profile).as_str(),
                "/",
                debug_number_text(expected.level).as_str(),
            ),
        );
    }
    if expected.mp4 {
        let formats = split_text(format_name, ',');
        assert(texts(formats@) =~= split(format_name@, ','));
        if !has_text(&formats, "mp4") {
            return Err(cat6("variant ", label, " container ", format_name, " is not ", "mp4"));
        }
    }
    if expected.requires_aac {
        let aac = match audio {
            Some(stream) => same_text(stream.codec_name.as_str(), "aac"),
            None => false,
        };
        if !aac {
            return Err(cat3("variant ", label, " requires an AAC audio stream"));
        }
    }
    Ok(())
}

fn read_bitrate(spec: &MediaVariantSpec, video: &FfprobeStream) -> (r: Result<Option<u64>, String>)
    ensures
        match r {
            Ok(rate) => observed_bitrate(spec@, video@) == Ok::<Option<u64>, Seq<char>>(rate),
            Err(message) => observed_bitrate(spec@, video@) == Err::<Option<u64>, Seq<char>>(message@),
        },
{
    let label = spec.label.as_str();
    match spec.bitrate_bps {
        None => Ok(None),
        Some(maximum) => {
            let text = match &video.bit_rate {
                Some(text) => text.as_str(),
                None => return Err(cat3("variant ", label, " has no video bitrate")),
            };
            let value: u64 = match parse_number(text) {
                Ok(value) => value,
                Err(message) => return Err(cat4("variant ", label, " bitrate is invalid: ", message.as_str())),
            };
            if value == 0 || value > maximum {
                return Err(
                    cat6(
                        "variant ",
                        label,
                        " bitrate ",
                        decimal_text(value).as_str(),
                        " exceeds contract maximum ",
                        decimal_text(maximum).as_str(),
                    ),
                );
            }
            Ok(Some(value))
        },
    }
}

/// Checks what the inspection of an output shows against the contract of its
/// variant.
pub fn validate_probe(spec: &MediaVariantSpec, output: &FfprobeOutput) -> (r: Result<ProbeResult, String>)
    ensures
        match r {
            Ok(probe) => probe_result(spec@, output.streams@, output.format.format_name@) == Ok::<
                ProbeModel,
                Seq<char>,
            >(probe@),
            Err(message) => probe_result(spec@, output.streams@, output.format.format_name@) == Err::<
                ProbeModel,
                Seq<char>,
            >(message@),
        },
{
    let video = match find_stream(&output.streams, "video") {
        Some(video) => video,
        None => return Err(cat3("variant ", spec.label.as_str(), " has no video/image stream")),
    };
    let audio = find_stream(&output.streams, "audio");
    let format_name = output.format.format_name.as_str();
    match check_streams(spec, video, audio, format_name) {
        Ok(_) => {},
        Err(message) => return Err(message),
    }
    let bitrate_bps = match read_bitrate(spec, video) {
        Ok(rate) => rate,
        Err(message) => return Err(message),
    };
    Ok(
        ProbeResult {
            codec: owned(spec.codec.as_str()),
            width: video.width,
            height: video.height,
            bitrate_bps,
            observed_video_codec: owned(video.codec_name.as_str()),
            observed_video_profile: owned_option(&video.profile),
            observed_video_level: video.level,
            observed_audio_codec: match audio {
                Some(stream) => Some(owned(stream.codec_name.as_str())),
                None => None,
            },
            observed_format: owned(format_name),
        },
    )
}

proof fn lemma_digits_are_not_negative(digits: Seq<char>)
    requires
        forall|i: int| 0 <= i < digits.len() ==> '0' <= #[trigger] digits[i] <= '9',
    ensures
        digits_value(digits) >= 0,
    decreases digits.len(),
{
    if digits.len() > 0 {
        lemma_digits_are_not_negative(digits.drop_last());
        assert('0' <= digits[digits.len() - 1] <= '9');
    }
}

/// An accepted output has the dimensions that its variant asks for, and where
/// a bit rate is asked for it stays within it.
pub proof fn law_accepted_outputs_meet_their_contract(
    spec: SpecModel,
    streams: Seq<FfprobeStream>,
    format_name: Seq<char>,
)
    requires
        probe_result(spec, streams, format_name) is Ok,
    ensures
        probe_result(spec, streams, format_name)->Ok_0.codec == spec.codec,
        probe_result(spec, streams, format_name)->Ok_0.width == spec.width,
        probe_result(spec, streams, format_name)->Ok_0.height == spec.height,
        match spec.bitrate_bps {
            Some(maximum) => probe_result(spec, streams, format_name)->Ok_0.bitrate_bps matches Some(rate) && 0 < rate
                <= maximum,
            None => probe_result(spec, streams, format_name)->Ok_0.bitrate_bps is None,
        },
{
    if spec.bitrate_bps is Some {
        let video = first_stream(streams, "video"@)->0;
        let text = video@.bit_rate->0;
        assert(observed_bitrate(spec, video@) is Ok);
        assert(number_of(text) is Some);
        let digits = if text.len() > 0 && text[0] == '+' {
            text.skip(1)
        } else {
            text
        };
        lemma_digits_are_not_negative(digits);
    }
}

proof fn lemma_first_stream(streams: Seq<FfprobeStream>, kind: Seq<char>)
    ensures
        match first_stream(streams, kind) {
            Some(stream) => exists|i: int|
                0 <= i < streams.len() && #[trigger] streams[i] == stream && stream.codec_type@ == kind && forall|j: int|
                    0 <= j < i ==> (#[trigger] streams[j]).codec_type@ != kind,
            None => forall|i: int| 0 <= i < streams.len() ==> (#[trigger] streams[i]).codec_type@ != kind,
        },
    decreases streams.len(),
{
    if streams.len() > 0 {
        let rest = streams.drop_last();
        lemma_first_stream(rest, kind);
        match first_stream(rest, kind) {
            Some(stream) => {
                let i = choose|i: int|
                    0 <= i < rest.len() && #[trigger] rest[i] == stream && stream.codec_type@ == kind && forall|j: int|
                        0 <= j < i ==> (#[trigger] rest[j]).codec_type@ != kind;
                assert(streams[i] == stream);
                assert forall|j: int| 0 <= j < i implies (#[trigger] streams[j]).codec_type@ != kind by {
                    assert(streams[j] == rest[j]);
                }
            },
            None => {
                assert forall|j: int| 0 <= j < rest.len() implies (#[trigger] streams[j]).codec_type@ != kind by {
                    assert(streams[j] == rest[j]);
                }
                if streams.last().codec_type@ == kind {
                    assert(streams[streams.len() - 1] == streams.last());
                }
            },
        }
    }
}

/// The stream that is looked at is the first one of its kind, if there is one.
pub proof fn law_the_first_stream_of_a_kind_counts(streams: Seq<FfprobeStream>, kind: Seq<char>, i: int)
    requires
        0 <= i < streams.len(),
        streams[i].codec_type@ == kind,
        forall|j: int| 0 <= j < i ==> (#[trigger] streams[j]).codec_type@ != kind,
    ensures
        first_stream(streams, kind) == Some(streams[i]),
{
    lemma_first_stream(streams, kind);
    match first_stream(streams, kind) {
        Some(stream) => {
            let k = choose|k: int|
                0 <= k < streams.len() && #[trigger] streams[k] == stream && stream.codec_type@ == kind && forall|j: int|
                    0 <= j < k ==> (#[trigger] streams[j]).codec_type@ != kind;
            if k < i {
                assert(streams[k].codec_type@ != kind);
            } else if i < k {
                assert(streams[i].codec_type@ != kind);
            }
        },
        None => {
            assert(streams[i].codec_type@ != kind);
        },
    }
}

/// Without a stream of a kind there is none to look at.
pub proof fn law_missing_streams_are_not_made_up(streams: Seq<FfprobeStream>, kind: Seq<char>)
    requires
        forall|j: int| 0 <= j < streams.len() ==> (#[trigger] streams[j]).codec_type@ != kind,
    ensures
        first_stream(streams, kind) is None,
{
    lemma_first_stream(streams, kind);
}

/// A video is accepted exactly where its first video stream is H.264 of the
/// dimensions, profile and level that its variant asks for, the container is an
/// MP4, the first audio stream is AAC where one is asked for, and the bit rate
/// is a number within the limit where there is one.
pub proof fn law_videos_are_accepted_as_declared(spec: SpecModel, streams: Seq<FfprobeStream>, format_name: Seq<char>)
    requires
        spec.kind is Transcode,
    ensures
        probe_result(spec, streams, format_name) is Ok <==> {
            &&& avc1(spec) matches Ok(found)
            &&& first_stream(streams, "video"@) matches Some(video)
            &&& video.width == spec.width
            &&& video.height == spec.height
            &&& video.codec_name@ == "h264"@
            &&& profile_name(found.profile_id) matches Some(name) ==> video.profile is Some && lower(video.profile->0@)
                == lower(name)
            &&& video.level == Some(found.level)
            &&& split(format_name, ',').contains("mp4"@)
            &&& has_part(spec.codec, "mp4a."@) ==> (first_stream(streams, "audio"@) matches Some(audio)
                && audio.codec_name@ == "aac"@)
            &&& spec.bitrate_bps matches Some(limit) ==> (video.bit_rate matches Some(rate) && (number_of(rate@)
                matches Some(value) && value <= u64::MAX && value != 0 && value <= limit))
        },
{
}

/// An image is accepted exactly where its first video stream has the dimensions
/// and the codec that its variant asks for, JPEG being written as `mjpeg`, and
/// a bit rate within the limit where there is one.
pub proof fn law_images_are_accepted_as_declared(spec: SpecModel, streams: Seq<FfprobeStream>, format_name: Seq<char>)
    requires
        !(spec.kind is Transcode),
    ensures
        probe_result(spec, streams, format_name) is Ok <==> {
            &&& first_stream(streams, "video"@) matches Some(video)
            &&& video.width == spec.width
            &&& video.height == spec.height
            &&& {
                ||| spec.codec == "webp"@ && video.codec_name@ == "webp"@
                ||| spec.codec == "jpeg"@ && video.codec_name@ == "mjpeg"@
                ||| spec.codec == "mjpeg"@ && video.codec_name@ == "mjpeg"@
                ||| spec.codec == "png"@ && video.codec_name@ == "png"@
            }
            &&& spec.bitrate_bps matches Some(limit) ==> (video.bit_rate matches Some(rate) && (number_of(rate@)
                matches Some(value) && value <= u64::MAX && value != 0 && value <= limit))
        },
{
    reveal_strlit("jpeg");
    reveal_strlit("webp");
    reveal_strlit("mjpeg");
    reveal_strlit("png");
    assert("jpeg"@[0] == 'j' && "webp"@[0] == 'w' && "mjpeg"@[0] == 'm' && "png"@[0] == 'p');
}

/// What is reported of an accepted output is what was seen of its streams and
/// its container.
pub proof fn law_reports_say_what_was_seen(spec: SpecModel, streams: Seq<FfprobeStream>, format_name: Seq<char>)
    requires
        probe_result(spec, streams, format_name) is Ok,
    ensures
        ({
            let probe = probe_result(spec, streams, format_name)->Ok_0;
            &&& first_stream(streams, "video"@) matches Some(video)
            &&& probe.codec == spec.codec
            &&& probe.observed_video_codec == video.codec_name@
            &&& probe.observed_video_profile is Some == video.profile is Some
            &&& video.profile matches Some(profile) ==> probe.observed_video_profile == Some(profile@)
            &&& probe.observed_video_level == video.level
            &&& probe.width == video.width
            &&& probe.height == video.height
            &&& probe.observed_format == format_name
            &&& probe.observed_audio_codec is Some == first_stream(streams, "audio"@) is Some
            &&& first_stream(streams, "audio"@) matches Some(audio) ==> probe.observed_audio_codec == Some(
                audio.codec_name@,
            )
            &&& spec.bitrate_bps is None ==> probe.bitrate_bps is None
            &&& spec.bitrate_bps is Some ==> probe.bitrate_bps is Some && probe.bitrate_bps->0 == number_of(
                video.bit_rate->0@,
            )->0
        }),
{
    if spec.bitrate_bps is Some {
        law_accepted_outputs_meet_their_contract(spec, streams, format_name);
        let video = first_stream(streams, "video"@)->0;
        let text = video@.bit_rate->0;
        let digits = if text.len() > 0 && text[0] == '+' {
            text.skip(1)
        } else {
            text
        };
        lemma_digits_are_not_negative(digits);
    }
}

/// A stream is seen with what the inspection shows of it.
pub proof fn law_streams_are_seen_as_they_are(stream: &FfprobeStream)
    ensures
        stream@.codec_type == stream.codec_type@,
        stream@.codec_name == stream.codec_name@,
        stream@.profile == text_option(stream.profile),
        stream@.level == stream.level,
        stream@.width == stream.width,
        stream@.height == stream.height,
        stream@.bit_rate == text_option(stream.bit_rate),
{
}

/// Why an output is not accepted is told with its variant, in this order: no
/// stream, other dimensions, another codec.
pub proof fn law_refused_outputs_are_told(spec: SpecModel, streams: Seq<FfprobeStream>, format_name: Seq<char>)
    ensures
        first_stream(streams, "video"@) is None ==> probe_result(spec, streams, format_name) == Err::<
            ProbeModel,
            Seq<char>,
        >("variant "@ + spec.label + " has no video/image stream"@),
        first_stream(streams, "video"@) matches Some(video) ==> {
            &&& video.width != spec.width || video.height != spec.height ==> probe_result(spec, streams, format_name)
                == Err::<ProbeModel, Seq<char>>(
                "variant "@ + spec.label + " dimensions "@ + debug_number(video.width) + "x"@ + debug_number(
                    video.height,
                ) + " do not match "@ + debug_number(spec.width) + "x"@ + debug_number(spec.height),
            )
            &&& video.width == spec.width && video.height == spec.height && stream_contract(spec) is Ok
                && video.codec_name@ != stream_contract(spec)->Ok_0.codec ==> probe_result(spec, streams, format_name)
                == Err::<ProbeModel, Seq<char>>(
                "variant "@ + spec.label + " codec "@ + video.codec_name@ + " does not match "@ + stream_contract(
                    spec,
                )->Ok_0.codec,
            )
        },
        debug_number(None) == "None"@,
        forall|value: u32| #[trigger] debug_number(Some(value)) == "Some("@ + decimal(value as nat) + ")"@,
{
}

/// A bit rate that is missing, unreadable, zero or above the limit is told as
/// such.
pub proof fn law_refused_bit_rates_are_told(spec: SpecModel, video: StreamModel, limit: u64)
    requires
        spec.bitrate_bps == Some(limit),
    ensures
        video.bit_rate is None ==> observed_bitrate(spec, video) == Err::<Option<u64>, Seq<char>>(
            "variant "@ + spec.label + " has no video bitrate"@,
        ),
        video.bit_rate matches Some(text) ==> match number_of(text) {
            Some(value) => {
                &&& 0 < value <= limit ==> observed_bitrate(spec, video) == Ok::<Option<u64>, Seq<char>>(
                    Some(value as u64),
                )
                &&& value == 0 || limit < value <= u64::MAX ==> observed_bitrate(spec, video) == Err::<
                    Option<u64>,
                    Seq<char>,
                >(
                    "variant "@ + spec.label + " bitrate "@ + decimal(value as nat) + " exceeds contract maximum "@
                        + decimal(limit as nat),
                )
            },
            None => observed_bitrate(spec, video) == Err::<Option<u64>, Seq<char>>(
                "variant "@ + spec.label + " bitrate is invalid: "@ + number_error(text),
            ),
        },
{
}

} // verus!
