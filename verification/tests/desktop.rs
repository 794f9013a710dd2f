//! Desktop entries, capabilities and settings.

use gifkino::caps::Caps;
use gifkino::desktop::{
    app_id_text, data_home, entry_path, icon_is_ours, integrator_owns_it, quote, rewrite_entry,
    should_install,
};
use gifkino::settings::{self, Settings};

const TEMPLATE: &str = "[Desktop Entry]\n\
                        Type=Application\n\
                        Name=Gifkino\n\
                        Exec=gifkino @@ %f @@\n\
                        TryExec=gifkino\n\
                        Icon=io.github.zbcoding.Gifkino\n\
                        Categories=Graphics;\n";

#[test]
fn the_entry_points_at_the_appimage_and_drops_the_flatpak_markers() {
    let entry = rewrite_entry(TEMPLATE, "/opt/My Apps/Gifkino.AppImage");

    assert!(
        entry.contains("Exec=\"/opt/My Apps/Gifkino.AppImage\" %f"),
        "a path with a space has to survive as one argument: {entry}"
    );
    assert!(
        entry.contains("TryExec=/opt/My Apps/Gifkino.AppImage\n"),
        "TryExec is a bare path looked up as-is; quoting it makes the whole \
         entry invalid and the taskbar stops matching it: {entry}"
    );
    assert!(
        !entry.contains("@@"),
        "flatpak's file-forwarding markers mean nothing here: {entry}"
    );
    // Everything else is the packaged entry, verbatim.
    for line in [
        "Name=Gifkino",
        "Icon=io.github.zbcoding.Gifkino",
        "Categories=Graphics;",
    ] {
        assert!(entry.contains(line), "{line} went missing: {entry}");
    }
}

#[test]
fn reserved_characters_are_escaped_in_exec_but_not_in_tryexec() {
    let entry = rewrite_entry(TEMPLATE, "/home/u/$(x)/a\"b/Gifkino.AppImage");
    assert!(
        entry.contains("Exec=\"/home/u/\\$(x)/a\\\"b/Gifkino.AppImage\" %f"),
        "a command line has to escape what the launcher would interpret: {entry}"
    );
    assert!(
        entry.contains("TryExec=/home/u/$(x)/a\"b/Gifkino.AppImage\n"),
        "a bare path is compared literally, so escaping it breaks the lookup: {entry}"
    );
    assert_eq!(quote("a`b\\c"), "\"a\\`b\\\\c\"");
}

#[test]
fn only_this_apps_icons_and_entries_are_its_own() {
    let ours = app_id_text();
    assert!(icon_is_ours(&format!("{ours}.png")));
    assert!(!icon_is_ours("org.example.Other.png"));
    assert!(!icon_is_ours(&format!("{ours}Pro.png")), "another id");
    assert!(!icon_is_ours(&format!("{ours}.Devel.png")), "another id");
    assert!(!icon_is_ours(ours) && !icon_is_ours(&format!("{ours}.")));
    // Another integrated entry says nothing about this one.
    assert!(!integrator_owns_it(
        "appimagekit_abc123-org.example.Other.desktop"
    ));
    // The hash in the middle varies with the path, so only the prefix and the
    // app id can be matched.
    assert!(integrator_owns_it(&format!(
        "appimagekit_deadbeef-{ours}.desktop"
    )));
    assert!(!integrator_owns_it(&format!("{ours}.desktop")));
    assert!(!integrator_owns_it(&format!(
        "appimagekit_deadbeef-{ours}Pro.desktop"
    )));
}

#[test]
fn the_entry_is_installed_only_where_it_is_missing_or_stale() {
    let here = "/opt/Gifkino.AppImage";
    assert!(should_install(false, false, None, here));
    assert!(should_install(
        false,
        false,
        Some("Exec=\"/old/Gifkino.AppImage\" %f"),
        here
    ));
    assert!(!should_install(
        false,
        false,
        Some("Exec=\"/opt/Gifkino.AppImage\" %f"),
        here
    ));
    assert!(
        should_install(
            false,
            false,
            Some("Exec=\"/opt/Gifkino.AppImage.old\" %f"),
            here
        ),
        "another file whose name starts alike"
    );
    assert!(!should_install(
        false,
        false,
        Some("Name=G\nExec=/opt/Gifkino.AppImage %f\n"),
        here
    ));
    for command in [
        "env A=1 /opt/Gifkino.AppImage %f",
        "env A=1 \"/opt/Gifkino.AppImage\" %f",
        "nice /opt/Gifkino.AppImage",
    ] {
        let entry = format!("Name=G\nExec={command}\n");
        assert!(!should_install(false, false, Some(&entry), here), "{command}");
    }
    for command in [
        "env A=/opt/Gifkino.AppImage gifkino",
        "/mnt/opt/Gifkino.AppImage %f",
        "gifkino",
    ] {
        let entry = format!("Name=G\nExec={command}\n");
        assert!(should_install(false, false, Some(&entry), here), "{command}");
    }
    for path in [here, "/home/u/$(x)/a\"b/Gifkino.AppImage"] {
        let entry = rewrite_entry(TEMPLATE, path);
        assert!(!should_install(false, false, Some(&entry), path), "{path}");
        assert!(should_install(false, false, Some(&entry), "/elsewhere/G.AppImage"));
    }
    assert!(!should_install(true, false, None, here), "opted out");
    assert!(
        !should_install(false, true, None, here),
        "an integrator did it"
    );
}

#[test]
fn the_entry_goes_under_the_users_data() {
    assert_eq!(
        entry_path("/home/u/.local/share"),
        "/home/u/.local/share/applications/io.github.zbcoding.Gifkino.desktop"
    );
    assert_eq!(
        data_home(None, Some("/home/u")).as_deref(),
        Some("/home/u/.local/share")
    );
    assert_eq!(
        data_home(Some("/data"), Some("/home/u")).as_deref(),
        Some("/data")
    );
    assert_eq!(data_home(Some("relative"), None), None);
}

#[test]
fn import_is_blocked_unless_both_ffmpeg_and_ffprobe_run() {
    for ffmpeg in [false, true] {
        for ffprobe in [false, true] {
            for gifsicle in [false, true] {
                let caps = Caps {
                    ffmpeg,
                    ffprobe,
                    gifsicle,
                };
                assert_eq!(
                    caps.import_blocker().is_none(),
                    ffmpeg && ffprobe,
                    "{caps:?}"
                );
            }
        }
    }
}

#[test]
fn unparseable_lines_fall_back_to_defaults() {
    let parse = |text: &str| {
        let mut settings = Settings::default();
        settings.apply(text);
        settings
    };

    assert_eq!(
        parse("max_import_memory_mb = 512").max_import_bytes,
        512 << 20
    );
    assert_eq!(
        parse("  max_import_memory_mb=64  ").max_import_bytes,
        64 << 20
    );
    assert_eq!(
        parse("max_oper_memory_mb = 2048").max_oper_bytes,
        2048 << 20
    );
    assert_eq!(
        parse("max_total_memory_mb = 10240").max_total_bytes,
        10240 << 20
    );

    assert_eq!(parse("language = de").language.as_deref(), Some("de"));
    assert_eq!(
        parse("language =").language,
        None,
        "empty means follow the environment"
    );

    let default = Settings::default();
    for junk in [
        "",
        "# max_import_memory_mb = 512",
        "max_import_memory_mb = 0",
        "max_import_memory_mb = lots",
        "max_oper_memory_mb = 0",
        "max_total_memory_mb = lots",
        "nonsense",
        "other_key = 4",
    ] {
        let parsed = parse(junk);
        assert_eq!(
            parsed.max_import_bytes, default.max_import_bytes,
            "on {junk:?}"
        );
        assert_eq!(parsed.max_oper_bytes, default.max_oper_bytes, "on {junk:?}");
        assert_eq!(
            parsed.max_total_bytes, default.max_total_bytes,
            "on {junk:?}"
        );
    }
}

#[test]
fn the_config_path_follows_xdg() {
    let path = settings::path(Some("/etc/xdg"), Some("/home/u")).expect("a directory to be in");
    assert!(path.ends_with("gifkino/settings.conf"), "{path}");
    assert!(path.starts_with('/'));
    assert_eq!(path, "/etc/xdg/gifkino/settings.conf");
    assert_eq!(
        settings::path(Some("relative"), Some("/home/u")).as_deref(),
        Some("/home/u/.config/gifkino/settings.conf"),
        "a relative directory does not count"
    );
    assert_eq!(settings::path(None, None), None);
}

#[test]
fn the_template_reads_back_as_the_defaults() {
    let mut settings = Settings::default();
    settings.apply(&settings::template());
    assert_eq!(settings.max_import_bytes, 4096 << 20);
    assert_eq!(settings.max_oper_bytes, 4096 << 20);
    assert_eq!(settings.max_total_bytes, 8192 << 20);
    assert_eq!(settings.language, None);
}
