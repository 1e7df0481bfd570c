//! Which panel a setting means, and what its media is known by.
use vstd::prelude::*;
use vstd::string::*;

use crate::registry::DeviceFamily;
use crate::service::{LcdConfig, MediaTarget, MediaTargetView, MediaType, ScreenInfo};
use crate::text::{
    decimal, decimal_text, has_prefix, joined, lemma_cut_tail, lemma_last_number, lemma_last_quoted,
    quoted, quoted_text, same_text, trim_prefix, without_prefix,
};

verus! {

/// An identity without the transport it was written with.
pub open spec fn norm(id: Seq<char>) -> Seq<char> {
    without_prefix(id, "hid:"@)
}

/// The identity without the transport it was written with.
pub fn hid_id_norm(id: &str) -> (rest: &str)
    ensures
        rest@ == norm(id@),
{
    trim_prefix(id, "hid:")
}

/// Two identities name one panel.
pub open spec fn ids_match(serial: Seq<char>, device_id: Seq<char>) -> bool {
    norm(serial) == norm(device_id)
}

/// Whether two identities name one panel.
pub fn lcd_id_matches(serial: &str, device_id: &str) -> (same: bool)
    ensures
        same == ids_match(serial@, device_id@),
{
    same_text(hid_id_norm(serial), hid_id_norm(device_id))
}

/// What a setting selects.
pub open spec fn selection_of(config: LcdConfig) -> Seq<char> {
    match config.serial {
        Some(serial) => "serial:"@ + norm(serial@),
        None => config.device_id@,
    }
}

/// What a setting selects.
pub fn selection_key(config: &LcdConfig) -> (key: String)
    ensures
        key@ == selection_of(*config),
{
    match &config.serial {
        Some(serial) => joined("serial:", hid_id_norm(serial)),
        None => config.device_id.clone(),
    }
}

/// Two settings select the same panel.
pub open spec fn selects_same(old_config: LcdConfig, new_config: LcdConfig) -> bool {
    match (old_config.serial, new_config.serial) {
        (Some(a), Some(b)) => ids_match(a@, b@),
        (None, None) => old_config.index == new_config.index,
        _ => false,
    }
}

/// Whether two settings select the same panel.
pub fn same_selection(old_config: &LcdConfig, new_config: &LcdConfig) -> (same: bool)
    ensures
        same == selects_same(*old_config, *new_config),
{
    match (&old_config.serial, &new_config.serial) {
        (Some(a), Some(b)) => lcd_id_matches(a, b),
        (None, None) => match (old_config.index, new_config.index) {
            (Some(a), Some(b)) => a == b,
            (None, None) => true,
            _ => false,
        },
        _ => false,
    }
}

/// Settings with serials select the same panel exactly when their selections are equal.
pub proof fn lemma_selection_follows_serial(old_config: LcdConfig, new_config: LcdConfig)
    requires
        old_config.serial is Some,
        new_config.serial is Some,
    ensures
        selects_same(old_config, new_config) <==> selection_of(old_config) == selection_of(
            new_config,
        ),
{
    let prefix = "serial:"@;
    let a = norm(old_config.serial->0@);
    let b = norm(new_config.serial->0@);
    if prefix + a == prefix + b {
        assert(a =~= (prefix + a).skip(prefix.len() as int));
        assert(b =~= (prefix + b).skip(prefix.len() as int));
    }
}

/// An identity names the same panel with and without its transport.
pub proof fn lemma_transport_does_not_matter(id: Seq<char>)
    requires
        !has_prefix(id, "hid:"@),
    ensures
        ids_match("hid:"@ + id, id),
{
    let prefix = "hid:"@;
    assert((prefix + id).take(prefix.len() as int) =~= prefix);
    assert((prefix + id).skip(prefix.len() as int) =~= id);
}

/// A layout that a user made: its name, and all of it in one text.
pub struct LcdTemplate {
    pub id: String,
    pub body: String,
}

/// The first template of that name.
pub open spec fn template_body(templates: Seq<LcdTemplate>, id: Seq<char>) -> Option<Seq<char>>
    decreases templates.len(),
{
    if templates.len() == 0 {
        None
    } else if templates[0].id@ == id {
        Some(templates[0].body@)
    } else {
        template_body(templates.skip(1), id)
    }
}

/// The template that belongs to a setting, if it uses one that exists.
pub open spec fn used_template(config: LcdConfig, templates: Seq<LcdTemplate>) -> Option<
    Seq<char>,
> {
    match config.template_id {
        Some(id) if config.media_type is Custom => template_body(templates, id@),
        _ => None,
    }
}

/// What prepared media is known by.
pub open spec fn asset_key(
    config: LcdConfig,
    templates: Seq<LcdTemplate>,
    default_fps: Seq<char>,
    hardware_video: bool,
) -> Seq<char> {
    let base = config.identity@ + "|fps:"@ + default_fps + "|hw:"@ + if hardware_video {
        "true"@
    } else {
        "false"@
    };
    match used_template(config, templates) {
        Some(body) => base + "|tpl:"@ + body,
        None => base,
    }
}

fn find_template<'a>(templates: &'a Vec<LcdTemplate>, id: &String) -> (body: Option<&'a String>)
    ensures
        body is Some <==> template_body(templates@, id@) is Some,
        body matches Some(body) ==> template_body(templates@, id@) == Some(body@),
{
    let mut i: usize = 0;
    assert(templates@.skip(0) =~= templates@);
    while i < templates.len()
        invariant
            i <= templates@.len(),
            template_body(templates@, id@) == template_body(templates@.skip(i as int), id@),
        decreases templates@.len() - i,
    {
        if templates[i].id == *id {
            return Some(&templates[i].body);
        }
        assert(templates@.skip(i as int).skip(1) =~= templates@.skip(i + 1));
        i += 1;
    }
    None
}

/// What prepared media is known by: everything that decides what it looks like.
pub fn asset_cache_key(
    config: &LcdConfig,
    templates: &Vec<LcdTemplate>,
    default_fps: &str,
    hardware_video: bool,
) -> (key: String)
    ensures
        key@ == asset_key(*config, templates@, default_fps@, hardware_video),
{
    let flag = if hardware_video {
        "true"
    } else {
        "false"
    };
    let base = joined(&config.identity, "|fps:").concat(default_fps).concat("|hw:").concat(flag);
    if config.media_type != MediaType::Custom {
        return base;
    }
    match &config.template_id {
        Some(id) => match find_template(templates, id) {
            Some(body) => base.concat("|tpl:").concat(body),
            None => base,
        },
        None => base,
    }
}

/// Whether hardware video is used is part of what media is known by.
pub proof fn lemma_hardware_video_changes_the_key(
    config: LcdConfig,
    templates: Seq<LcdTemplate>,
    default_fps: Seq<char>,
)
    ensures
        asset_key(config, templates, default_fps, true) != asset_key(
            config,
            templates,
            default_fps,
            false,
        ),
{
    reveal_strlit("true");
    reveal_strlit("false");
    assert("true"@.len() + 1 == "false"@.len());
    let hardware = asset_key(config, templates, default_fps, true);
    let software = asset_key(config, templates, default_fps, false);
    assert(hardware.len() + 1 == software.len());
}

/// A screen as it is written in keys.
pub open spec fn screen_text(screen: ScreenInfo) -> Seq<char> {
    "ScreenInfo { width: "@ + decimal(screen.width as nat) + ", height: "@ + decimal(
        screen.height as nat,
    ) + ", model: "@ + decimal(screen.model as nat) + " }"@
}

/// A connected panel as it is written in keys.
pub open spec fn target_text(target: Option<MediaTargetView>) -> Seq<char> {
    match target {
        Some(target) => "Some(MediaTarget { selection: "@ + quoted(target.selection)
            + ", device_id: "@ + quoted(target.device_id) + ", screen: "@ + screen_text(
            target.screen,
        ) + " })"@,
        None => "None"@,
    }
}

/// What an optional target stands for.
pub open spec fn target_view(target: Option<MediaTarget>) -> Option<MediaTargetView> {
    match target {
        Some(target) => Some(target@),
        None => None,
    }
}

/// Writes a connected panel as it stands in keys.
pub fn written_target(target: Option<&MediaTarget>) -> (text: String)
    ensures
        text@ == target_text(
            match target {
                Some(target) => Some(target@),
                None => None,
            },
        ),
{
    match target {
        Some(target) => {
            let screen = joined("ScreenInfo { width: ", &decimal_text(target.screen.width)).concat(
                ", height: ",
            ).concat(&decimal_text(target.screen.height)).concat(", model: ").concat(
                &decimal_text(target.screen.model),
            ).concat(" }");
            joined("Some(MediaTarget { selection: ", &quoted_text(&target.selection)).concat(
                ", device_id: ",
            ).concat(&quoted_text(&target.device_id)).concat(", screen: ").concat(&screen).concat(
                " })",
            )
        },
        None => "None".to_owned(),
    }
}

proof fn lemma_screens_tell_apart(a: Seq<char>, x: ScreenInfo, b: Seq<char>, y: ScreenInfo)
    requires
        a + screen_text(x) == b + screen_text(y),
    ensures
        a == b,
        x == y,
{
    reveal_strlit("ScreenInfo { width: ");
    reveal_strlit(", height: ");
    reveal_strlit(", model: ");
    let a1 = a + "ScreenInfo { width: "@;
    let a2 = a1 + decimal(x.width as nat) + ", height: "@;
    let a3 = a2 + decimal(x.height as nat) + ", model: "@;
    let b1 = b + "ScreenInfo { width: "@;
    let b2 = b1 + decimal(y.width as nat) + ", height: "@;
    let b3 = b2 + decimal(y.height as nat) + ", model: "@;
    assert(a1.last() == ' ' && a2.last() == ' ' && a3.last() == ' ');
    assert(b1.last() == ' ' && b2.last() == ' ' && b3.last() == ' ');
    assert(a + screen_text(x) =~= a3 + decimal(x.model as nat) + " }"@);
    assert(b + screen_text(y) =~= b3 + decimal(y.model as nat) + " }"@);
    lemma_cut_tail(a3 + decimal(x.model as nat), b3 + decimal(y.model as nat), " }"@);
    lemma_last_number(a3, x.model as nat, b3, y.model as nat);
    lemma_cut_tail(a2 + decimal(x.height as nat), b2 + decimal(y.height as nat), ", model: "@);
    lemma_last_number(a2, x.height as nat, b2, y.height as nat);
    lemma_cut_tail(a1 + decimal(x.width as nat), b1 + decimal(y.width as nat), ", height: "@);
    lemma_last_number(a1, x.width as nat, b1, y.width as nat);
    lemma_cut_tail(a, b, "ScreenInfo { width: "@);
}

/// A connected panel that ends a text can be read only one way from the end.
pub proof fn lemma_targets_tell_apart(
    a: Seq<char>,
    x: Option<MediaTargetView>,
    b: Seq<char>,
    y: Option<MediaTargetView>,
)
    requires
        a + target_text(x) == b + target_text(y),
    ensures
        a == b,
        x == y,
{
    reveal_strlit("Some(MediaTarget { selection: ");
    reveal_strlit(", device_id: ");
    reveal_strlit(" })");
    reveal_strlit("None");
    let first = a + target_text(x);
    let second = b + target_text(y);
    match (x, y) {
        (Some(x), Some(y)) => {
            let a1 = a + "Some(MediaTarget { selection: "@;
            let a2 = a1 + quoted(x.selection) + ", device_id: "@;
            let a3 = a2 + quoted(x.device_id) + ", screen: "@;
            let b1 = b + "Some(MediaTarget { selection: "@;
            let b2 = b1 + quoted(y.selection) + ", device_id: "@;
            let b3 = b2 + quoted(y.device_id) + ", screen: "@;
            assert(a1.last() == ' ' && a2.last() == ' ');
            assert(b1.last() == ' ' && b2.last() == ' ');
            assert(first =~= a3 + screen_text(x.screen) + " })"@);
            assert(second =~= b3 + screen_text(y.screen) + " })"@);
            lemma_cut_tail(a3 + screen_text(x.screen), b3 + screen_text(y.screen), " })"@);
            lemma_screens_tell_apart(a3, x.screen, b3, y.screen);
            lemma_cut_tail(a2 + quoted(x.device_id), b2 + quoted(y.device_id), ", screen: "@);
            lemma_last_quoted(a2, x.device_id, b2, y.device_id);
            lemma_cut_tail(a1 + quoted(x.selection), b1 + quoted(y.selection), ", device_id: "@);
            lemma_last_quoted(a1, x.selection, b1, y.selection);
            lemma_cut_tail(a, b, "Some(MediaTarget { selection: "@);
        },
        (None, None) => {
            lemma_cut_tail(a, b, "None"@);
        },
        (Some(_), None) => {
            assert(first.last() == ')');
            assert(second.last() == 'e');
        },
        (None, Some(_)) => {
            assert(first.last() == 'e');
            assert(second.last() == ')');
        },
    }
}

/// What is asked for: the media, for the connected panel.
pub open spec fn request_key(
    config: LcdConfig,
    templates: Seq<LcdTemplate>,
    default_fps: Seq<char>,
    hardware_video: bool,
    target: Option<MediaTarget>,
) -> Seq<char> {
    asset_key(config, templates, default_fps, hardware_video) + "|target:"@ + target_text(
        target_view(target),
    )
}

/// What is asked for tells both the media and the connected panel: two requests with the same key
/// are for media of the same key, on the same panel of the same screen.
pub proof fn lemma_request_keys_tell_apart(
    config: LcdConfig,
    templates: Seq<LcdTemplate>,
    default_fps: Seq<char>,
    hardware_video: bool,
    target: Option<MediaTarget>,
    other_config: LcdConfig,
    other_templates: Seq<LcdTemplate>,
    other_default_fps: Seq<char>,
    other_hardware_video: bool,
    other_target: Option<MediaTarget>,
)
    requires
        request_key(config, templates, default_fps, hardware_video, target) == request_key(
            other_config,
            other_templates,
            other_default_fps,
            other_hardware_video,
            other_target,
        ),
    ensures
        asset_key(config, templates, default_fps, hardware_video) == asset_key(
            other_config,
            other_templates,
            other_default_fps,
            other_hardware_video,
        ),
        target_view(target) == target_view(other_target),
{
    let base = asset_key(config, templates, default_fps, hardware_video);
    let other_base = asset_key(
        other_config,
        other_templates,
        other_default_fps,
        other_hardware_video,
    );
    lemma_targets_tell_apart(
        base + "|target:"@,
        target_view(target),
        other_base + "|target:"@,
        target_view(other_target),
    );
    lemma_cut_tail(base, other_base, "|target:"@);
}

/// Whether the service can stream media to a family over USB.
pub fn is_streamable_lcd(has_lcd: bool, desktop_mode: bool) -> (streamable: bool)
    ensures
        streamable == (has_lcd && !desktop_mode),
{
    has_lcd && !desktop_mode
}

/// How a panel is driven.
#[derive(Clone, Copy, Debug, PartialEq, Eq, Structural)]
pub enum LcdBackendKind {
    Slv3,
    WinUsbShared,
    WinUsb,
    HidAio,
    HidTl,
}

/// How the panels of a family are driven.
pub open spec fn backend_of(family: DeviceFamily) -> Option<LcdBackendKind> {
    match family {
        DeviceFamily::Slv3Lcd | DeviceFamily::Tlv2Lcd => Some(LcdBackendKind::Slv3),
        DeviceFamily::HydroShift2Lcd => Some(LcdBackendKind::WinUsbShared),
        DeviceFamily::HydroShift2OledCurveLcd
        | DeviceFamily::Lancool207
        | DeviceFamily::UniversalScreen
        | DeviceFamily::Vision9p2
        | DeviceFamily::TlFlexLcd
        | DeviceFamily::SlInfFlexLcd => Some(LcdBackendKind::WinUsb),
        DeviceFamily::HydroShiftLcd | DeviceFamily::Galahad2Lcd => Some(LcdBackendKind::HidAio),
        DeviceFamily::TlLcd => Some(LcdBackendKind::HidTl),
        DeviceFamily::WirelessAio | DeviceFamily::Other => None,
    }
}

/// How the panels of a family are driven.
pub fn lcd_backend_kind(family: DeviceFamily) -> (kind: Option<LcdBackendKind>)
    ensures
        kind == backend_of(family),
{
    match family {
        DeviceFamily::Slv3Lcd | DeviceFamily::Tlv2Lcd => Some(LcdBackendKind::Slv3),
        DeviceFamily::HydroShift2Lcd => Some(LcdBackendKind::WinUsbShared),
        DeviceFamily::HydroShift2OledCurveLcd
        | DeviceFamily::Lancool207
        | DeviceFamily::UniversalScreen
        | DeviceFamily::Vision9p2
        | DeviceFamily::TlFlexLcd
        | DeviceFamily::SlInfFlexLcd => Some(LcdBackendKind::WinUsb),
        DeviceFamily::HydroShiftLcd | DeviceFamily::Galahad2Lcd => Some(LcdBackendKind::HidAio),
        DeviceFamily::TlLcd => Some(LcdBackendKind::HidTl),
        DeviceFamily::WirelessAio | DeviceFamily::Other => None,
    }
}

/// The family's panels sit on a wired cooler.
pub open spec fn on_wired_aio(family: DeviceFamily) -> bool {
    family is HydroShiftLcd || family is Galahad2Lcd || family is HydroShift2Lcd
        || family is HydroShift2OledCurveLcd
}

/// Whether the family's panels sit on a wired cooler.
pub fn is_wired_aio_lcd(family: DeviceFamily) -> (wired: bool)
    ensures
        wired == on_wired_aio(family),
{
    matches!(
        family,
        DeviceFamily::HydroShiftLcd
            | DeviceFamily::Galahad2Lcd
            | DeviceFamily::HydroShift2Lcd
            | DeviceFamily::HydroShift2OledCurveLcd
    )
}

spec fn starts_with_transport(id: Seq<char>) -> bool {
    id.len() >= 4 && id[0] == 'h' && id[1] == 'i' && id[2] == 'd' && id[3] == ':'
}

proof fn lemma_norm_of_body(id: Seq<char>, body: Seq<char>)
    requires
        !starts_with_transport(body),
        id == body || id == seq!['h', 'i', 'd', ':'] + body,
    ensures
        norm(id) == body,
{
    reveal_strlit("hid:");
    assert("hid:"@ =~= seq!['h', 'i', 'd', ':']);
    let words = seq!['h', 'i', 'd', ':'];
    if id == words + body {
        assert(id.take(4) =~= words);
        assert(id.skip(4) =~= body);
        if id == body {
            assert(body.len() == body.len() + 4);
        }
    } else if has_prefix(id, words) {
        assert(id.take(4)[0] == 'h' && id.take(4)[1] == 'i' && id.take(4)[2] == 'd' && id.take(4)[3]
            == ':');
    }
}

/// Two identities name one panel exactly when they are the same but for the letters `hid:` before
/// either of them.
pub proof fn lemma_identities_match_without_transport(
    serial: &str,
    device_id: &str,
    same: bool,
    a: Seq<char>,
    b: Seq<char>,
)
    requires
        call_ensures(lcd_id_matches, (serial, device_id), same),
        !(a.len() >= 4 && a[0] == 'h' && a[1] == 'i' && a[2] == 'd' && a[3] == ':'),
        !(b.len() >= 4 && b[0] == 'h' && b[1] == 'i' && b[2] == 'd' && b[3] == ':'),
        serial@ == a || serial@ == seq!['h', 'i', 'd', ':'] + a,
        device_id@ == b || device_id@ == seq!['h', 'i', 'd', ':'] + b,
    ensures
        same <==> a == b,
{
    lemma_norm_of_body(serial@, a);
    lemma_norm_of_body(device_id@, b);
}

/// An identity is freed of the letters `hid:` before it, and of nothing else.
pub proof fn lemma_only_the_transport_is_dropped(id: &str, rest: &str)
    requires
        call_ensures(hid_id_norm, (id,), rest),
    ensures
        ({
            let long = id@.len() >= 4 && id@[0] == 'h' && id@[1] == 'i' && id@[2] == 'd' && id@[3]
                == ':';
            &&& long ==> rest@ == id@.skip(4)
            &&& !long ==> rest@ == id@
        }),
{
    reveal_strlit("hid:");
    let words = "hid:"@;
    if has_prefix(id@, words) {
        assert(id@.take(4)[0] == 'h' && id@.take(4)[1] == 'i' && id@.take(4)[2] == 'd' && id@.take(
            4,
        )[3] == ':');
    } else if id@.len() >= 4 && id@[0] == 'h' && id@[1] == 'i' && id@[2] == 'd' && id@[3] == ':' {
        assert(id@.take(4) =~= words);
    }
}

/// A setting with a serial selects by that, without its transport; any other by its device.
pub proof fn lemma_settings_select_by_serial(config: &LcdConfig, key: String, body: Seq<char>)
    requires
        call_ensures(selection_key, (config,), key),
        !(body.len() >= 4 && body[0] == 'h' && body[1] == 'i' && body[2] == 'd' && body[3] == ':'),
        config.serial matches Some(serial) ==> serial@ == body || serial@ == seq![
            'h',
            'i',
            'd',
            ':',
        ] + body,
    ensures
        config.serial is Some ==> key@ == seq!['s', 'e', 'r', 'i', 'a', 'l', ':'] + body,
        config.serial is None ==> key@ == config.device_id@,
{
    if let Some(serial) = config.serial {
        lemma_norm_of_body(serial@, body);
        reveal_strlit("serial:");
        assert("serial:"@ =~= seq!['s', 'e', 'r', 'i', 'a', 'l', ':']);
    }
}

/// Two settings select the same panel by serial when both have one, by position when neither has,
/// and never when only one has. Swapping them makes no difference.
pub proof fn lemma_selections_agree(
    first: &LcdConfig,
    second: &LcdConfig,
    same: bool,
    swapped: bool,
    a: Seq<char>,
    b: Seq<char>,
)
    requires
        call_ensures(same_selection, (first, second), same),
        call_ensures(same_selection, (second, first), swapped),
        !(a.len() >= 4 && a[0] == 'h' && a[1] == 'i' && a[2] == 'd' && a[3] == ':'),
        !(b.len() >= 4 && b[0] == 'h' && b[1] == 'i' && b[2] == 'd' && b[3] == ':'),
        first.serial matches Some(serial) ==> serial@ == a || serial@ == seq!['h', 'i', 'd', ':']
            + a,
        second.serial matches Some(serial) ==> serial@ == b || serial@ == seq!['h', 'i', 'd', ':']
            + b,
    ensures
        same == swapped,
        first.serial is Some && second.serial is None ==> !same,
        first.serial is None && second.serial is None ==> (same <==> first.index == second.index),
        first.serial is Some && second.serial is Some ==> (same <==> a == b),
{
    if first.serial is Some && second.serial is Some {
        lemma_norm_of_body(first.serial->0@, a);
        lemma_norm_of_body(second.serial->0@, b);
    }
}

proof fn lemma_first_template(templates: Seq<LcdTemplate>, id: Seq<char>, at: int)
    requires
        0 <= at <= templates.len(),
        forall|i: int| 0 <= i < at ==> (#[trigger] templates[i]).id@ != id,
        at < templates.len() ==> templates[at].id@ == id,
    ensures
        template_body(templates, id) == if at < templates.len() {
            Some(templates[at].body@)
        } else {
            None
        },
    decreases templates.len(),
{
    if templates.len() > 0 && at > 0 {
        assert(templates[0].id@ != id);
        let rest = templates.skip(1);
        assert forall|i: int| 0 <= i < at - 1 implies (#[trigger] rest[i]).id@ != id by {
            assert(rest[i] == templates[i + 1]);
        }
        lemma_first_template(rest, id, at - 1);
    }
}

/// Media is known by what it shows, the default frame rate and whether video is decoded in
/// hardware. A layout of the user's own adds its whole text, where it exists: that of the first
/// layout of the name.
pub proof fn lemma_media_keys_name_everything(
    config: &LcdConfig,
    templates: &Vec<LcdTemplate>,
    default_fps: &str,
    hardware_video: bool,
    key: String,
    at: int,
)
    requires
        call_ensures(asset_cache_key, (config, templates, default_fps, hardware_video), key),
        0 <= at <= templates@.len(),
        config.template_id matches Some(id) ==> (forall|i: int|
            0 <= i < at ==> (#[trigger] templates@[i]).id@ != id@) && (at < templates@.len()
            ==> templates@[at].id@ == id@),
    ensures
        ({
            let base = config.identity@ + "|fps:"@ + default_fps@ + "|hw:"@;
            let flag = if hardware_video {
                "true"@
            } else {
                "false"@
            };
            let laid_out = config.media_type is Custom && config.template_id is Some && at
                < templates@.len();
            &&& laid_out ==> key@ == base + flag + "|tpl:"@ + templates@[at].body@
            &&& !laid_out ==> key@ == base + flag
        }),
{
    if let Some(id) = config.template_id {
        lemma_first_template(templates@, id@, at);
    }
}

/// Panels of wireless fans are driven in their own way, the shared cooler's in its own, those of
/// other coolers and of wired fans over HID, and the remaining ones over plain USB. Devices
/// without a panel are not driven.
pub proof fn lemma_families_have_their_driver(
    family: DeviceFamily,
    kind: Option<LcdBackendKind>,
    wired: bool,
)
    requires
        call_ensures(lcd_backend_kind, (family,), kind),
        call_ensures(is_wired_aio_lcd, (family,), wired),
    ensures
        kind is None <==> family is WirelessAio || family is Other,
        kind == Some(LcdBackendKind::Slv3) <==> family is Slv3Lcd || family is Tlv2Lcd,
        kind == Some(LcdBackendKind::WinUsbShared) <==> family is HydroShift2Lcd,
        kind == Some(LcdBackendKind::HidAio) <==> family is HydroShiftLcd || family is Galahad2Lcd,
        kind == Some(LcdBackendKind::HidTl) <==> family is TlLcd,
        kind == Some(LcdBackendKind::WinUsb) <==> family is HydroShift2OledCurveLcd
            || family is Lancool207 || family is UniversalScreen || family is Vision9p2
            || family is TlFlexLcd || family is SlInfFlexLcd,
        wired <==> kind == Some(LcdBackendKind::HidAio) || kind == Some(
            LcdBackendKind::WinUsbShared,
        ) || family is HydroShift2OledCurveLcd,
{
}

/// Media is streamed to panels only, and not to one that shows a desktop.
pub proof fn lemma_desktops_are_not_streamed_to(
    has_lcd: bool,
    desktop_mode: bool,
    streamable: bool,
)
    requires
        call_ensures(is_streamable_lcd, (has_lcd, desktop_mode), streamable),
    ensures
        streamable ==> has_lcd && !desktop_mode,
        has_lcd && !desktop_mode ==> streamable,
{
}

/// Two written panels are the same exactly when both are missing, or both are there with the same
/// selection, device and screen.
pub proof fn lemma_written_targets_differ(
    first: &MediaTarget,
    second: &MediaTarget,
    one: String,
    other: String,
    none: String,
)
    requires
        call_ensures(written_target, (Some(first),), one),
        call_ensures(written_target, (Some(second),), other),
        call_ensures(written_target, (None::<&MediaTarget>,), none),
    ensures
        one@ == other@ <==> first.selection@ == second.selection@ && first.device_id@
            == second.device_id@ && first.screen.width == second.screen.width
            && first.screen.height == second.screen.height && first.screen.model
            == second.screen.model,
        one@ != none@,
        none@ == "None"@,
{
    let empty = Seq::<char>::empty();
    assert(empty + one@ =~= one@);
    assert(empty + other@ =~= other@);
    assert(empty + none@ =~= none@);
    if one@ == other@ {
        lemma_targets_tell_apart(empty, Some(first@), empty, Some(second@));
    }
    if one@ == none@ {
        lemma_targets_tell_apart(empty, Some(first@), empty, None);
    }
}

} // verus!
