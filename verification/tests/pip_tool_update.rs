use yt_dlp_feed::config::PipToolUpdatesConfig;
use yt_dlp_feed::pip_tool_update::{
    version_for_log, ytdlp_version, PeriodicUpdates, PipToolUpdater, UpdateStart,
};

fn updater(enabled: bool) -> PipToolUpdater {
    PipToolUpdater::new(PipToolUpdatesConfig {
        enabled,
        ..PipToolUpdatesConfig::default()
    })
}

#[test]
fn docker_tool_paths_are_hardcoded() {
    assert_eq!(PipToolUpdater::python_path(), "/opt/yt-dlp/bin/python");
    assert_eq!(PipToolUpdater::ytdlp_path(), "/opt/yt-dlp/bin/yt-dlp");
}

#[test]
fn installs_are_verified_program_by_program() {
    assert_eq!(PipToolUpdater::verify_install(true, true), Ok(()));
    assert_eq!(
        PipToolUpdater::verify_install(false, false),
        Err("missing /opt/yt-dlp/bin/python".to_string())
    );
    assert_eq!(
        PipToolUpdater::verify_install(true, false),
        Err("missing /opt/yt-dlp/bin/yt-dlp".to_string())
    );
}

#[test]
fn nothing_is_updated_where_updates_are_off() {
    assert!(!updater(false).run_startup_check());
    assert_eq!(updater(false).start_periodic(), PeriodicUpdates::Off);
    assert_eq!(updater(false).update_once(true, true), UpdateStart::Skip);
}

#[test]
fn updates_run_pip() {
    assert!(updater(true).run_startup_check());
    assert_eq!(
        updater(true).start_periodic(),
        PeriodicUpdates::Every { seconds: 604_800 }
    );
    assert_eq!(
        updater(true).update_once(true, true),
        UpdateStart::Run {
            args: vec![
                "-m".to_string(),
                "pip".to_string(),
                "install".to_string(),
                "--upgrade".to_string(),
                "yt-dlp".to_string()
            ]
        }
    );
    assert_eq!(
        updater(true).update_once(true, false),
        UpdateStart::Fail {
            message: "missing /opt/yt-dlp/bin/yt-dlp".to_string()
        }
    );
    assert_eq!(updater(true).update_ended(true, "exit status: 0"), Ok(()));
    assert_eq!(
        updater(true).update_ended(false, "exit status: 1"),
        Err("pip install --upgrade yt-dlp exited with exit status: 1".to_string())
    );
    let endless = PipToolUpdater::new(PipToolUpdatesConfig {
        enabled: true,
        interval_hours: None,
        startup_check: false,
        pip_package: "yt-dlp".to_string(),
    });
    assert_eq!(endless.start_periodic(), PeriodicUpdates::NoInterval);
    assert!(!endless.run_startup_check());
}

#[test]
fn versions_are_trimmed() {
    assert_eq!(
        ytdlp_version(true, "exit status: 0", "2025.01.01\n"),
        Ok("2025.01.01".to_string())
    );
    assert_eq!(
        ytdlp_version(false, "exit status: 2", ""),
        Err("yt-dlp --version exited with exit status: 2".to_string())
    );
    assert_eq!(version_for_log(Ok("1".to_string())), "1");
    assert_eq!(version_for_log(Err("gone".to_string())), "unknown (gone)");
}
