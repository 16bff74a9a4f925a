//! The arguments with which an output is made.
use vstd::prelude::*;

use crate::outside::{hex_bytes, decode_hex, hex_digit, hex_error, is_hex};
use crate::text::{
    byte_len, cat3, cat4, contains_text, decimal, decimal_text, has_part, lemma_split_parts, owned,
    same_text, split, split_text, starts_with, str_option, trim, trimmed, utf8, without_prefix,
};
use crate::transcode::types::{KindModel, MediaVariantKind, MediaVariantSpec, SpecModel};

verus! {

/// The texts of a list.
pub open spec fn texts(list: Seq<String>) -> Seq<Seq<char>> {
    Seq::new(list.len(), |i: int| list[i]@)
}

fn add1(list: &mut Vec<String>, a: &str)
    ensures
        texts(final(list)@) == texts(old(list)@) + seq![a@],
{
    let ghost before = list@;
    list.push(owned(a));
    assert(texts(list@) =~= texts(before) + seq![a@]);
}

fn add2(list: &mut Vec<String>, a: &str, b: &str)
    ensures
        texts(final(list)@) == texts(old(list)@) + seq![a@, b@],
{
    let ghost before = list@;
    list.push(owned(a));
    list.push(owned(b));
    assert(texts(list@) =~= texts(before) + seq![a@, b@]);
}

/// A byte in hexadecimal notation without leading zeros.
pub open spec fn short_hex(value: u8) -> Seq<char> {
    if value < 16 {
        seq![hex_digit(value as int)]
    } else {
        seq![hex_digit(value as int / 16), hex_digit(value as int % 16)]
    }
}

fn hex_char(value: u8) -> (r: char)
    requires
        value < 16,
    ensures
        r == hex_digit(value as int),
{
    if value < 10 {
        (value + 48) as char
    } else {
        (value + 87) as char
    }
}

fn short_hex_text(value: u8) -> (r: String)
    ensures
        r@ == short_hex(value),
{
    let mut r = String::new();
    if value >= 16 {
        r.push(hex_char(value / 16));
    }
    r.push(hex_char(value % 16));
    assert(r@ =~= short_hex(value));
    r
}

/// The name of an H.264 profile, if it is a supported one.
pub open spec fn profile_name(id: u8) -> Option<Seq<char>> {
    if id == 0x42 {
        Some("Baseline"@)
    } else if id == 0x4d {
        Some("Main"@)
    } else if id == 0x64 {
        Some("High"@)
    } else {
        None
    }
}

/// The H.264 profile and level that a codec text asks for.
pub struct Avc1 {
    pub profile: &'static str,
    pub profile_id: u8,
    pub level: u32,
}

/// The identifiers of an H.264 profile and level.
pub struct Avc1Model {
    pub profile_id: u8,
    pub level: u32,
}

/// The H.264 profile and level in the first component of a codec text: the
/// first and the third of the three bytes that follow `avc1.`.
pub open spec fn avc1(spec: SpecModel) -> Result<Avc1Model, Seq<char>> {
    let first = trim(split(spec.codec, ',')[0]);
    let component = first.skip("avc1."@.len() as int);
    let bytes = hex_bytes(utf8(component));
    if !starts_with(first, "avc1."@) {
        Err("variant "@ + spec.label + " has no avc1 codec component"@)
    } else if utf8(component).len() != 6 {
        Err("variant "@ + spec.label + " avc1 profile-level must contain six hex digits"@)
    } else if !is_hex(utf8(component)) {
        Err("variant "@ + spec.label + " avc1 codec is invalid: "@ + hex_error(utf8(component)))
    } else if profile_name(bytes[0]) is None {
        Err("variant "@ + spec.label + " uses unsupported H.264 profile id 0x"@ + short_hex(bytes[0]))
    } else {
        Ok(Avc1Model { profile_id: bytes[0], level: bytes[2] as u32 })
    }
}

/// The H.264 profile and level that a variant asks for.
pub fn avc1_contract(spec: &MediaVariantSpec) -> (r: Result<Avc1, String>)
    ensures
        match r {
            Ok(found) => {
                &&& avc1(spec@) == Ok::<Avc1Model, Seq<char>>(
                    (Avc1Model { profile_id: found.profile_id, level: found.level }),
                )
                &&& profile_name(found.profile_id) == Some(found.profile@)
            },
            Err(message) => avc1(spec@) == Err::<Avc1Model, Seq<char>>(message@),
        },
{
    let label = spec.label.as_str();
    let parts = split_text(spec.codec.as_str(), ',');
    proof {
        lemma_split_parts(spec.codec@, ',');
        assert(Seq::new(parts@.len(), |i: int| parts@[i]@)[0] == split(spec.codec@, ',')[0]);
    }
    let component = match without_prefix(trimmed(parts[0].as_str()), "avc1.") {
        Some(component) => component,
        None => return Err(cat3("variant ", label, " has no avc1 codec component")),
    };
    if byte_len(component) != 6 {
        return Err(cat3("variant ", label, " avc1 profile-level must contain six hex digits"));
    }
    let bytes = match decode_hex(component) {
        Ok(bytes) => bytes,
        Err(message) => return Err(cat4("variant ", label, " avc1 codec is invalid: ", message.as_str())),
    };
    let profile_id: u8 = bytes[0];
    let profile = if profile_id == 0x42 {
        "Baseline"
    } else if profile_id == 0x4d {
        "Main"
    } else if profile_id == 0x64 {
        "High"
    } else {
        return Err(
            cat4(
                "variant ",
                label,
                " uses unsupported H.264 profile id 0x",
                short_hex_text(profile_id).as_str(),
            ),
        );
    };
    Ok(Avc1 { profile, profile_id, level: bytes[2] as u32 })
}

/// The family that the name of an encoding profile speaks of, with its
/// identifier.
pub open spec fn profile_family(profile: Seq<char>) -> Option<(Seq<char>, u8)> {
    if has_part(profile, "high"@) {
        Some(("high"@, 0x64u8))
    } else if has_part(profile, "main"@) {
        Some(("main"@, 0x4du8))
    } else if has_part(profile, "baseline"@) {
        Some(("baseline"@, 0x42u8))
    } else {
        None
    }
}

/// A level as the encoder writes it.
pub open spec fn level_text(level: u32) -> Seq<char> {
    decimal((level / 10) as nat) + "."@ + decimal((level % 10) as nat)
}

/// The arguments before those that depend on the kind of output.
pub open spec fn common_args(source: Seq<char>) -> Seq<Seq<char>> {
    seq!["-nostdin"@] + seq!["-hide_banner"@] + seq!["-loglevel"@, "error"@] + seq!["-y"@] + seq!["-i"@, source]
}

/// What is wrong with the contract of a video, if anything.
pub open spec fn video_fault(spec: SpecModel, profile: Seq<char>) -> Option<Seq<char>> {
    if spec.content_type != "video/mp4"@ || !starts_with(spec.codec, "avc1."@) {
        Some("variant "@ + spec.label + " uses an unsupported video contract"@)
    } else {
        match avc1(spec) {
            Err(message) => Some(message),
            Ok(found) => match profile_family(profile) {
                None => Some("variant "@ + spec.label + " uses unsupported H.264 profile "@ + profile),
                Some(family) => if family.1 != found.profile_id {
                    Some(
                        "variant "@ + spec.label + " profile "@ + family.0 + " does not match codec "@ + spec.codec,
                    )
                } else {
                    None
                },
            },
        }
    }
}

/// Twice a bit rate, or the greatest number where that does not fit.
pub open spec fn doubled(bitrate: u64) -> nat {
    if 2 * bitrate <= u64::MAX {
        (2 * bitrate) as nat
    } else {
        u64::MAX as nat
    }
}

/// The arguments that make a video, behind those given.
pub open spec fn video_args(args: Seq<Seq<char>>, spec: SpecModel, profile: Seq<char>, output: Seq<char>) -> Seq<
    Seq<char>,
> {
    let family = profile_family(profile)->0;
    let level = avc1(spec)->Ok_0.level;
    let encoder = args + seq!["-map"@, "0:v:0"@] + seq!["-map"@, "0:a?"@] + seq!["-c:v"@, "libx264"@] + seq![
        "-profile:v"@,
        family.0,
    ] + seq!["-level:v"@, level_text(level)] + seq!["-pix_fmt"@, "yuv420p"@] + seq![
        "-force_key_frames"@,
        "expr:gte(t,n_forced*4)"@,
    ];
    let scaled = if spec.width is Some && spec.height is Some {
        encoder + seq!["-vf"@, "scale="@ + decimal(spec.width->0 as nat) + ":"@ + decimal(spec.height->0 as nat)]
    } else {
        encoder
    };
    let limited = match spec.bitrate_bps {
        Some(bitrate) => scaled + seq!["-b:v"@, decimal(bitrate as nat)] + seq!["-maxrate"@, decimal(bitrate as nat)]
            + seq!["-bufsize"@, decimal(doubled(bitrate))],
        None => scaled,
    };
    let heard = if has_part(spec.codec, "mp4a."@) {
        limited + seq!["-c:a"@, "aac"@] + seq!["-b:a"@, "128k"@]
    } else {
        limited + seq!["-an"@]
    };
    heard + seq!["-movflags"@, "+frag_keyframe+empty_moov+default_base_moof+global_sidx+skip_trailer"@] + seq![
        "-frag_duration"@,
        "4000000"@,
    ] + seq![output]
}

/// The encoder for an image, if the contract is a supported one.
pub open spec fn image_encoder(spec: SpecModel) -> Option<Seq<char>> {
    if spec.content_type == "image/webp"@ && spec.codec == "webp"@ {
        Some("libwebp"@)
    } else if spec.content_type == "image/jpeg"@ && (spec.codec == "jpeg"@ || spec.codec == "mjpeg"@) {
        Some("mjpeg"@)
    } else if spec.content_type == "image/png"@ && spec.codec == "png"@ {
        Some("png"@)
    } else {
        None
    }
}

/// What is wrong with the contract of an image, if anything.
pub open spec fn image_fault(spec: SpecModel) -> Option<Seq<char>> {
    if image_encoder(spec) is None {
        Some("variant "@ + spec.label + " uses an unsupported image contract"@)
    } else if spec.width is Some != spec.height is Some {
        Some("variant dimensions are incomplete"@)
    } else {
        None
    }
}

/// The filter that picks and scales the frame of an image.
pub open spec fn image_filter(spec: SpecModel) -> Seq<char> {
    if spec.width is Some {
        "thumbnail,scale="@ + decimal(spec.width->0 as nat) + ":"@ + decimal(spec.height->0 as nat)
    } else {
        "thumbnail"@
    }
}

/// The arguments that make an image, behind those given.
pub open spec fn image_args(args: Seq<Seq<char>>, spec: SpecModel, output: Seq<char>) -> Seq<Seq<char>> {
    args + seq!["-frames:v"@, "1"@] + seq!["-an"@] + seq!["-vf"@, image_filter(spec)] + seq![
        "-c:v"@,
        image_encoder(spec)->0,
    ] + seq![output]
}

/// The arguments that make an output from a source, or what forbids to make
/// it.  A path that is no text is given as `None`.
pub open spec fn ffmpeg_args(source: Option<Seq<char>>, output: Option<Seq<char>>, spec: SpecModel) -> Result<
    Seq<Seq<char>>,
    Seq<char>,
> {
    if source is None {
        Err("source path is not valid UTF-8"@)
    } else if output is None {
        Err("output path is not valid UTF-8"@)
    } else {
        match spec.kind {
            KindModel::Transcode { profile } => match video_fault(spec, profile) {
                Some(message) => Err(message),
                None => Ok(video_args(common_args(source->0), spec, profile, output->0)),
            },
            _ => match image_fault(spec) {
                Some(message) => Err(message),
                None => Ok(image_args(common_args(source->0), spec, output->0)),
            },
        }
    }
}

fn add_video_args(args: &mut Vec<String>, spec: &MediaVariantSpec, profile: &str, output: &str) -> (r: Result<
    (),
    String,
>)
    ensures
        match r {
            Ok(_) => video_fault(spec@, profile@) is None && texts(final(args)@) == video_args(
                texts(old(args)@),
                spec@,
                profile@,
                output@,
            ),
            Err(message) => video_fault(spec@, profile@) == Some(message@),
        },
{
    let label = spec.label.as_str();
    if !same_text(spec.content_type.as_str(), "video/mp4") || without_prefix(
        spec.codec.as_str(),
        "avc1.",
    ).is_none() {
        return Err(cat3("variant ", label, " uses an unsupported video contract"));
    }
    let found = match avc1_contract(spec) {
        Ok(found) => found,
        Err(message) => return Err(message),
    };
    let family = if contains_text(profile, "high") {
        ("high", 0x64u8)
    } else if contains_text(profile, "main") {
        ("main", 0x4du8)
    } else if contains_text(profile, "baseline") {
        ("baseline", 0x42u8)
    } else {
        return Err(cat4("variant ", label, " uses unsupported H.264 profile ", profile));
    };
    if family.1 != found.profile_id {
        return Err(
            cat3(
                cat4("variant ", label, " profile ", family.0).as_str(),
                " does not match codec ",
                spec.codec.as_str(),
            ),
        );
    }
    let whole: u64 = (found.level / 10) as u64;
    let tenth: u64 = (found.level % 10) as u64;
    let level = cat3(decimal_text(whole).as_str(), ".", decimal_text(tenth).as_str());
    add2(args, "-map", "0:v:0");
    add2(args, "-map", "0:a?");
    add2(args, "-c:v", "libx264");
    add2(args, "-profile:v", family.0);
    add2(args, "-level:v", level.as_str());
    add2(args, "-pix_fmt", "yuv420p");
    add2(args, "-force_key_frames", "expr:gte(t,n_forced*4)");
    match (spec.width, spec.height) {
        (Some(width), Some(height)) => {
            let scale = cat4(
                "scale=",
                decimal_text(width as u64).as_str(),
                ":",
                decimal_text(height as u64).as_str(),
            );
            add2(args, "-vf", scale.as_str());
        },
        _ => {},
    }
    match spec.bitrate_bps {
        Some(bitrate) => {
            let rate = decimal_text(bitrate);
            let twice: u64 = if bitrate <= u64::MAX / 2 { 2 * bitrate } else { u64::MAX };
            let buffer = decimal_text(twice);
            add2(args, "-b:v", rate.as_str());
            add2(args, "-maxrate", rate.as_str());
            add2(args, "-bufsize", buffer.as_str());
        },
        None => {},
    }
    if contains_text(spec.codec.as_str(), "mp4a.") {
        add2(args, "-c:a", "aac");
        add2(args, "-b:a", "128k");
    } else {
        add1(args, "-an");
    }
    add2(args, "-movflags", "+frag_keyframe+empty_moov+default_base_moof+global_sidx+skip_trailer");
    add2(args, "-frag_duration", "4000000");
    add1(args, output);
    Ok(())
}

fn add_image_args(args: &mut Vec<String>, spec: &MediaVariantSpec, output: &str) -> (r: Result<(), String>)
    ensures
        match r {
            Ok(_) => image_fault(spec@) is None && texts(final(args)@) == image_args(
                texts(old(args)@),
                spec@,
                output@,
            ),
            Err(message) => image_fault(spec@) == Some(message@),
        },
{
    let kind = spec.content_type.as_str();
    let codec = spec.codec.as_str();
    let encoder = if same_text(kind, "image/webp") && same_text(codec, "webp") {
        "libwebp"
    } else if same_text(kind, "image/jpeg") && (same_text(codec, "jpeg") || same_text(codec, "mjpeg")) {
        "mjpeg"
    } else if same_text(kind, "image/png") && same_text(codec, "png") {
        "png"
    } else {
        return Err(cat3("variant ", spec.label.as_str(), " uses an unsupported image contract"));
    };
    let filter = match (spec.width, spec.height) {
        (Some(width), Some(height)) => cat4(
            "thumbnail,scale=",
            decimal_text(width as u64).as_str(),
            ":",
            decimal_text(height as u64).as_str(),
        ),
        (None, None) => owned("thumbnail"),
        _ => return Err(owned("variant dimensions are incomplete")),
    };
    add2(args, "-frames:v", "1");
    add1(args, "-an");
    add2(args, "-vf", filter.as_str());
    add2(args, "-c:v", encoder);
    add1(args, output);
    Ok(())
}

/// The arguments that make an output from a source.  A path that is no text is
/// given as `None`.
pub fn build_ffmpeg_args(source: Option<&str>, output: Option<&str>, spec: &MediaVariantSpec) -> (r: Result<
    Vec<String>,
    String,
>)
    ensures
        match r {
            Ok(args) => ffmpeg_args(str_option(source), str_option(output), spec@) == Ok::<
                Seq<Seq<char>>,
                Seq<char>,
            >(texts(args@)),
            Err(message) => ffmpeg_args(str_option(source), str_option(output), spec@) == Err::<
                Seq<Seq<char>>,
                Seq<char>,
            >(message@),
        },
{
    let source = match source {
        Some(source) => source,
        None => return Err(owned("source path is not valid UTF-8")),
    };
    let output = match output {
        Some(output) => output,
        None => return Err(owned("output path is not valid UTF-8")),
    };
    let mut args: Vec<String> = Vec::new();
    add1(&mut args, "-nostdin");
    add1(&mut args, "-hide_banner");
    add2(&mut args, "-loglevel", "error");
    add1(&mut args, "-y");
    add2(&mut args, "-i", source);
    assert(texts(args@) =~= common_args(source@));
    match &spec.kind {
        MediaVariantKind::Transcode { profile } => {
            match add_video_args(&mut args, spec, profile.as_str(), output) {
                Ok(_) => Ok(args),
                Err(message) => Err(message),
            }
        },
        _ => {
            match add_image_args(&mut args, spec, output) {
                Ok(_) => Ok(args),
                Err(message) => Err(message),
            }
        },
    }
}

/// The arguments that inspect an output.
pub open spec fn probe_args(output: Seq<char>) -> Seq<Seq<char>> {
    seq!["-v"@, "error"@] + seq![
        "-show_entries"@,
        "stream=codec_type,codec_name,profile,level,width,height,bit_rate:format=format_name"@,
    ] + seq!["-of"@, "json"@] + seq![output]
}

/// The arguments that inspect an output.  A path that is no text is given as
/// `None`.
pub fn build_ffprobe_args(output: Option<&str>) -> (r: Result<Vec<String>, String>)
    ensures
        match r {
            Ok(args) => output is Some && texts(args@) == probe_args(output->0@),
            Err(message) => output is None && message@ == "output path is not valid UTF-8"@,
        },
{
    let output = match output {
        Some(output) => output,
        None => return Err(owned("output path is not valid UTF-8")),
    };
    let mut args: Vec<String> = Vec::new();
    add2(&mut args, "-v", "error");
    add2(
        &mut args,
        "-show_entries",
        "stream=codec_type,codec_name,profile,level,width,height,bit_rate:format=format_name",
    );
    add2(&mut args, "-of", "json");
    add1(&mut args, output);
    assert(texts(args@) =~= probe_args(output@));
    Ok(args)
}

/// The arguments name the source behind `-i` and end with the output; nothing
/// else in them depends on a path.
#[verifier::rlimit(40)]
pub proof fn law_arguments_name_source_and_output(source: Seq<char>, output: Seq<char>, spec: SpecModel)
    requires
        ffmpeg_args(Some(source), Some(output), spec) is Ok,
    ensures
        ffmpeg_args(Some(source), Some(output), spec)->Ok_0.len() > 7,
        ffmpeg_args(Some(source), Some(output), spec)->Ok_0[5] == "-i"@,
        ffmpeg_args(Some(source), Some(output), spec)->Ok_0[6] == source,
        ffmpeg_args(Some(source), Some(output), spec)->Ok_0.last() == output,
        forall|other: Seq<char>|
            #![trigger ffmpeg_args(Some(other), Some(output), spec)]
            ffmpeg_args(Some(other), Some(output), spec) is Ok && ffmpeg_args(Some(other), Some(output), spec)->Ok_0
                == ffmpeg_args(Some(source), Some(output), spec)->Ok_0.update(6, other),
{
    assert forall|other: Seq<char>|
        #![trigger ffmpeg_args(Some(other), Some(output), spec)]
        ffmpeg_args(Some(other), Some(output), spec) is Ok && ffmpeg_args(Some(other), Some(output), spec)->Ok_0
            == ffmpeg_args(Some(source), Some(output), spec)->Ok_0.update(6, other) by {
        assert(ffmpeg_args(Some(other), Some(output), spec)->Ok_0 =~= ffmpeg_args(
            Some(source),
            Some(output),
            spec,
        )->Ok_0.update(6, other));
    }
}

/// Whether an option is given with a value: the value stands right behind it.
pub open spec fn given(args: Seq<Seq<char>>, option: Seq<char>, value: Seq<char>) -> bool {
    exists|i: int| 0 <= i && i + 1 < args.len() && #[trigger] args[i] == option && args[i + 1] == value
}

/// The encoder of an image is one that makes what the inspection of the output
/// expects: for WebP the encoder of that name, otherwise the very codec that
/// the inspection looks for.  The output is a single frame without sound, the
/// thumbnail of the source, scaled where the variant has dimensions.
pub proof fn law_images_are_encoded_as_they_are_inspected(source: Seq<char>, output: Seq<char>, spec: SpecModel)
    requires
        !(spec.kind is Transcode),
        ffmpeg_args(Some(source), Some(output), spec) is Ok,
    ensures
        ({
            let args = ffmpeg_args(Some(source), Some(output), spec)->Ok_0;
            &&& crate::transcode::probe::stream_contract(spec) matches Ok(contract)
            &&& given(
                args,
                "-c:v"@,
                if contract.codec == "webp"@ {
                    "libwebp"@
                } else {
                    contract.codec
                },
            )
            &&& spec.codec == "webp"@ ==> contract.codec == "webp"@ && spec.content_type == "image/webp"@
            &&& spec.codec == "jpeg"@ || spec.codec == "mjpeg"@ ==> contract.codec == "mjpeg"@ && spec.content_type
                == "image/jpeg"@
            &&& spec.codec == "png"@ ==> contract.codec == "png"@ && spec.content_type == "image/png"@
            &&& given(args, "-frames:v"@, "1"@)
            &&& args.contains("-an"@)
            &&& given(
                args,
                "-vf"@,
                match (spec.width, spec.height) {
                    (Some(width), Some(height)) => "thumbnail,scale="@ + decimal(width as nat) + ":"@ + decimal(
                        height as nat,
                    ),
                    _ => "thumbnail"@,
                },
            )
            &&& args.len() == 15
            &&& args.last() == output
        }),
{
    reveal_strlit("jpeg");
    reveal_strlit("webp");
    reveal_strlit("mjpeg");
    reveal_strlit("png");
    assert("jpeg"@[0] == 'j' && "webp"@[0] == 'w' && "mjpeg"@[0] == 'm' && "png"@[0] == 'p');
    let args = ffmpeg_args(Some(source), Some(output), spec)->Ok_0;
    assert(args[7] == "-frames:v"@ && args[8] == "1"@);
    assert(args[9] == "-an"@);
    assert(args[10] == "-vf"@ && args[11] == image_filter(spec));
    assert(args[12] == "-c:v"@ && args[13] == image_encoder(spec)->0);
}

/// An image is made exactly where its content type and codec belong together
/// and are supported, and it has both dimensions or none.
pub proof fn law_supported_images_are_made(spec: SpecModel)
    ensures
        image_fault(spec) is None <==> {
            &&& spec.width is Some == spec.height is Some
            &&& {
                ||| spec.content_type == "image/webp"@ && spec.codec == "webp"@
                ||| spec.content_type == "image/jpeg"@ && spec.codec == "jpeg"@
                ||| spec.content_type == "image/jpeg"@ && spec.codec == "mjpeg"@
                ||| spec.content_type == "image/png"@ && spec.codec == "png"@
            }
        },
{
}

proof fn lemma_lower_names()
    ensures
        lower_eq("Baseline"@, "baseline"@),
        lower_eq("Main"@, "main"@),
        lower_eq("High"@, "high"@),
{
    reveal_strlit("Baseline");
    reveal_strlit("baseline");
    reveal_strlit("Main");
    reveal_strlit("main");
    reveal_strlit("High");
    reveal_strlit("high");
    assert(crate::text::lower("Baseline"@) =~= crate::text::lower("baseline"@));
    assert(crate::text::lower("Main"@) =~= crate::text::lower("main"@));
    assert(crate::text::lower("High"@) =~= crate::text::lower("high"@));
}

spec fn lower_eq(a: Seq<char>, b: Seq<char>) -> bool {
    crate::text::lower(a) == crate::text::lower(b)
}

/// A video is encoded as its inspection expects it: in H.264 with the profile
/// that the inspection looks for and the level in tenths, from the first video
/// stream of the source, and with AAC sound exactly where the inspection asks
/// for it.
pub proof fn law_videos_are_encoded_as_they_are_inspected(source: Seq<char>, output: Seq<char>, spec: SpecModel)
    requires
        spec.kind is Transcode,
        ffmpeg_args(Some(source), Some(output), spec) is Ok,
    ensures
        ({
            let args = ffmpeg_args(Some(source), Some(output), spec)->Ok_0;
            &&& crate::transcode::probe::stream_contract(spec) matches Ok(contract)
            &&& contract.codec == "h264"@
            &&& given(args, "-c:v"@, "libx264"@)
            &&& given(args, "-pix_fmt"@, "yuv420p"@)
            &&& given(args, "-map"@, "0:v:0"@)
            &&& given(args, "-map"@, "0:a?"@)
            &&& exists|profile: Seq<char>| #[trigger]
                given(args, "-profile:v"@, profile) && contract.profile is Some && crate::text::lower(profile)
                    == crate::text::lower(contract.profile->0)
            &&& exists|whole: nat, tenth: nat|
                tenth < 10 && contract.level is Some && contract.level->0 == 10 * whole + tenth && #[trigger] given(
                    args,
                    "-level:v"@,
                    decimal(whole) + "."@ + decimal(tenth),
                )
            &&& contract.requires_aac == has_part(spec.codec, "mp4a."@)
            &&& if contract.requires_aac {
                given(args, "-c:a"@, "aac"@)
            } else {
                args.contains("-an"@)
            }
        }),
{
    let args = ffmpeg_args(Some(source), Some(output), spec)->Ok_0;
    let profile = spec.kind->profile;
    let family = profile_family(profile)->0;
    let level = avc1(spec)->Ok_0.level;
    assert(args[7] == "-map"@ && args[8] == "0:v:0"@);
    assert(args[9] == "-map"@ && args[10] == "0:a?"@);
    assert(args[11] == "-c:v"@ && args[12] == "libx264"@);
    assert(args[13] == "-profile:v"@ && args[14] == family.0);
    assert(args[15] == "-level:v"@ && args[16] == level_text(level));
    assert(args[17] == "-pix_fmt"@ && args[18] == "yuv420p"@);
    assert(given(args, "-profile:v"@, family.0));
    assert(given(args, "-level:v"@, decimal((level / 10) as nat) + "."@ + decimal((level % 10) as nat)));
    lemma_lower_names();
    let n = args.len();
    if has_part(spec.codec, "mp4a."@) {
        assert(args[n - 9] == "-c:a"@ && args[n - 8] == "aac"@);
    } else {
        assert(args[n - 6] == "-an"@);
    }
}

/// A video has the size that its variant asks for, and where a bit rate is
/// asked for it is encoded at that rate and never above it.  It is written in
/// fragments of four seconds with a key frame at least as often.
pub proof fn law_videos_keep_size_and_bit_rate(source: Seq<char>, output: Seq<char>, spec: SpecModel)
    requires
        spec.kind is Transcode,
        ffmpeg_args(Some(source), Some(output), spec) is Ok,
    ensures
        ({
            let args = ffmpeg_args(Some(source), Some(output), spec)->Ok_0;
            &&& spec.width is Some && spec.height is Some ==> given(
                args,
                "-vf"@,
                "scale="@ + decimal(spec.width->0 as nat) + ":"@ + decimal(spec.height->0 as nat),
            )
            &&& spec.bitrate_bps matches Some(rate) ==> {
                &&& given(args, "-b:v"@, decimal(rate as nat))
                &&& given(args, "-maxrate"@, decimal(rate as nat))
                &&& 2 * rate <= u64::MAX ==> given(args, "-bufsize"@, decimal((2 * rate) as nat))
            }
            &&& given(args, "-force_key_frames"@, "expr:gte(t,n_forced*4)"@)
            &&& given(args, "-frag_duration"@, "4000000"@)
            &&& given(args, "-movflags"@, "+frag_keyframe+empty_moov+default_base_moof+global_sidx+skip_trailer"@)
            &&& args.last() == output
        }),
{
    let args = ffmpeg_args(Some(source), Some(output), spec)->Ok_0;
    let scaled = spec.width is Some && spec.height is Some;
    let at = if scaled {
        23int
    } else {
        21int
    };
    assert(args[19] == "-force_key_frames"@ && args[20] == "expr:gte(t,n_forced*4)"@);
    if scaled {
        assert(args[21] == "-vf"@);
        assert(args[22] == "scale="@ + decimal(spec.width->0 as nat) + ":"@ + decimal(spec.height->0 as nat));
    }
    if let Some(rate) = spec.bitrate_bps {
        assert(args[at] == "-b:v"@ && args[at + 1] == decimal(rate as nat));
        assert(args[at + 2] == "-maxrate"@ && args[at + 3] == decimal(rate as nat));
        assert(args[at + 4] == "-bufsize"@ && args[at + 5] == decimal(doubled(rate)));
    }
    let n = args.len();
    assert(args[n - 5] == "-movflags"@);
    assert(args[n - 4] == "+frag_keyframe+empty_moov+default_base_moof+global_sidx+skip_trailer"@);
    assert(args[n - 3] == "-frag_duration"@ && args[n - 2] == "4000000"@);
}

/// A video is made exactly where it is an MP4 with an H.264 codec of a known
/// profile, and the name of the profile says the same: high, else main, else
/// baseline.
pub proof fn law_supported_videos_are_made(spec: SpecModel, profile: Seq<char>)
    ensures
        video_fault(spec, profile) is None <==> {
            &&& spec.content_type == "video/mp4"@
            &&& starts_with(spec.codec, "avc1."@)
            &&& avc1(spec) matches Ok(found)
            &&& found.profile_id == 0x64 || found.profile_id == 0x4d || found.profile_id == 0x42
            &&& found.profile_id == 0x64 <==> has_part(profile, "high"@)
            &&& found.profile_id == 0x4d <==> !has_part(profile, "high"@) && has_part(profile, "main"@)
            &&& found.profile_id == 0x42 <==> !has_part(profile, "high"@) && !has_part(profile, "main"@) && has_part(
                profile,
                "baseline"@,
            )
        },
{
}

/// A codec text whose first component is `avc1.` and three bytes in hexadecimal
/// notation asks for the profile of the first byte and the level of the third,
/// whatever the second byte and the other components are.
pub proof fn law_codecs_name_profile_and_level(spec: SpecModel, bytes: Seq<u8>)
    requires
        bytes.len() == 3,
        trim(split(spec.codec, ',')[0]) == "avc1."@ + crate::outside::hex_text(bytes),
    ensures
        if bytes[0] == 0x42 || bytes[0] == 0x4d || bytes[0] == 0x64 {
            avc1(spec) == Ok::<Avc1Model, Seq<char>>(Avc1Model { profile_id: bytes[0], level: bytes[2] as u32 })
        } else {
            avc1(spec) is Err
        },
        profile_name(0x42) == Some("Baseline"@),
        profile_name(0x4d) == Some("Main"@),
        profile_name(0x64) == Some("High"@),
{
    let text = crate::outside::hex_text(bytes);
    let first = "avc1."@ + text;
    crate::outside::law_hex_round_trip(bytes);
    assert(first.take("avc1."@.len() as int) =~= "avc1."@);
    assert(first.skip("avc1."@.len() as int) =~= text);
    assert(hex_bytes(utf8(text)).len() == 3);
    assert(utf8(text).len() % 2 == 0);
}

/// An output is inspected for the codec, profile, level, dimensions and bit
/// rate of its streams and for its container, and is read as JSON.
pub proof fn law_inspections_show_what_is_checked(output: Seq<char>)
    ensures
        given(
            probe_args(output),
            "-show_entries"@,
            "stream=codec_type,codec_name,profile,level,width,height,bit_rate:format=format_name"@,
        ),
        given(probe_args(output), "-of"@, "json"@),
        given(probe_args(output), "-v"@, "error"@),
        probe_args(output).last() == output,
{
    let args = probe_args(output);
    assert(args[0] == "-v"@ && args[1] == "error"@);
    assert(args[2] == "-show_entries"@);
    assert(args[4] == "-of"@ && args[5] == "json"@);
}

/// A source or output whose path is no text is refused, and so is nothing else
/// that a variant allows.
pub proof fn law_paths_must_be_texts(source: Option<Seq<char>>, output: Option<Seq<char>>, spec: SpecModel)
    ensures
        source is None || output is None ==> ffmpeg_args(source, output, spec) is Err,
        source is Some && output is Some ==> (ffmpeg_args(source, output, spec) is Ok <==> match spec.kind {
            KindModel::Transcode { profile } => video_fault(spec, profile) is None,
            _ => image_fault(spec) is None,
        }),
{
}

/// Every output is made without asking anything, without a banner, with errors
/// as the only messages, and over what is there; nothing is given twice or
/// beside what the variant asks for.
#[verifier::rlimit(40)]
pub proof fn law_outputs_are_made_without_questions(source: Seq<char>, output: Seq<char>, spec: SpecModel)
    requires
        ffmpeg_args(Some(source), Some(output), spec) is Ok,
    ensures
        ({
            let args = ffmpeg_args(Some(source), Some(output), spec)->Ok_0;
            &&& args[0] == "-nostdin"@
            &&& args[1] == "-hide_banner"@
            &&& args[2] == "-loglevel"@
            &&& args[3] == "error"@
            &&& args[4] == "-y"@
            &&& spec.kind is Transcode ==> args.len() == 26 + (if spec.width is Some && spec.height is Some {
                2int
            } else {
                0int
            }) + (if spec.bitrate_bps is Some {
                6int
            } else {
                0int
            }) + (if has_part(spec.codec, "mp4a."@) {
                4int
            } else {
                1int
            })
            &&& spec.kind is Transcode && has_part(spec.codec, "mp4a."@) ==> given(args, "-b:a"@, "128k"@)
        }),
{
    let args = ffmpeg_args(Some(source), Some(output), spec)->Ok_0;
    if spec.kind is Transcode && has_part(spec.codec, "mp4a."@) {
        let n = args.len();
        assert(args[n - 7] == "-b:a"@ && args[n - 6] == "128k"@);
    }
}

/// A bit rate that cannot be doubled is taken as the greatest number.
pub proof fn law_bit_rates_are_doubled(rate: u64)
    ensures
        2 * rate <= u64::MAX ==> doubled(rate) == 2 * rate,
        2 * rate > u64::MAX ==> doubled(rate) == u64::MAX,
{
}

/// What forbids to make a video is told: another content type or codec, an
/// unreadable codec, an unknown profile, or one that is not that of the codec.
pub proof fn law_refused_videos_are_told(spec: SpecModel, profile: Seq<char>)
    ensures
        spec.content_type != "video/mp4"@ || !starts_with(spec.codec, "avc1."@) ==> video_fault(spec, profile) == Some(
            "variant "@ + spec.label + " uses an unsupported video contract"@,
        ),
        spec.content_type == "video/mp4"@ && starts_with(spec.codec, "avc1."@) ==> {
            &&& avc1(spec) matches Err(message) ==> video_fault(spec, profile) == Some(message)
            &&& avc1(spec) is Ok && !has_part(profile, "high"@) && !has_part(profile, "main"@) && !has_part(
                profile,
                "baseline"@,
            ) ==> video_fault(spec, profile) == Some(
                "variant "@ + spec.label + " uses unsupported H.264 profile "@ + profile,
            )
            &&& avc1(spec) is Ok && has_part(profile, "high"@) && avc1(spec)->Ok_0.profile_id != 0x64 ==> video_fault(
                spec,
                profile,
            ) == Some("variant "@ + spec.label + " profile "@ + "high"@ + " does not match codec "@ + spec.codec)
        },
        image_fault(spec) matches Some(message) ==> message == "variant "@ + spec.label
            + " uses an unsupported image contract"@ || message == "variant dimensions are incomplete"@,
{
}

/// A codec text is read only where its first component is `avc1.` and six
/// hexadecimal digits, and otherwise what is wrong is told.
pub proof fn law_unreadable_codecs_are_told(spec: SpecModel)
    ensures
        ({
            let first = trim(split(spec.codec, ',')[0]);
            let digits = utf8(first.skip("avc1."@.len() as int));
            &&& avc1(spec) is Ok ==> starts_with(first, "avc1."@) && digits.len() == 6 && is_hex(digits)
            &&& !starts_with(first, "avc1."@) ==> avc1(spec) == Err::<Avc1Model, Seq<char>>(
                "variant "@ + spec.label + " has no avc1 codec component"@,
            )
            &&& starts_with(first, "avc1."@) && digits.len() != 6 ==> avc1(spec) == Err::<Avc1Model, Seq<char>>(
                "variant "@ + spec.label + " avc1 profile-level must contain six hex digits"@,
            )
            &&& starts_with(first, "avc1."@) && digits.len() == 6 && !is_hex(digits) ==> avc1(spec) == Err::<
                Avc1Model,
                Seq<char>,
            >("variant "@ + spec.label + " avc1 codec is invalid: "@ + hex_error(digits))
        }),
{
}

/// A profile that is not supported is told in hexadecimal notation without a
/// leading zero.
pub proof fn law_unknown_profiles_are_told_in_hexadecimal(value: u8)
    ensures
        value >= 16 ==> short_hex(value) == crate::outside::hex_text(seq![value]),
        value < 16 ==> seq!['0'] + short_hex(value) == crate::outside::hex_text(seq![value]),
{
    let text = crate::outside::hex_text(seq![value]);
    if value >= 16 {
        assert(short_hex(value) =~= text);
    } else {
        assert(seq!['0'] + short_hex(value) =~= text);
    }
}

/// A path that is no text is told, that of the source before that of the
/// output.
pub proof fn law_unreadable_paths_are_told(output: Option<Seq<char>>, source: Seq<char>, spec: SpecModel)
    ensures
        ffmpeg_args(None, output, spec) == Err::<Seq<Seq<char>>, Seq<char>>("source path is not valid UTF-8"@),
        ffmpeg_args(Some(source), None, spec) == Err::<Seq<Seq<char>>, Seq<char>>("output path is not valid UTF-8"@),
{
}

} // verus!
