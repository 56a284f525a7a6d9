use limusic::tray::{
    argb_pixels, available, tray_action, tray_menu, TrayAction, TrayEntry, TrayState,
};

#[test]
fn no_watcher_means_no_close_to_tray() {
    let mut tray = TrayState::new();
    assert!(available(&tray), "a desktop with a working tray is the default");
    tray.set_available(false); // what a tray host that never answers leads to
    assert!(!available(&tray));
    tray.set_available(true);
    assert!(available(&tray));
}

#[test]
fn menu_entries_do_what_they_say() {
    assert_eq!(tray_action("show"), TrayAction::Show);
    assert_eq!(tray_action("quit"), TrayAction::Quit);
    assert_eq!(tray_action("restart"), TrayAction::Restart);
    assert_eq!(tray_action("play_pause"), TrayAction::PlayPause);
    assert_eq!(tray_action("next"), TrayAction::Next);
    assert_eq!(tray_action("prev"), TrayAction::Previous);
    assert_eq!(tray_action("other"), TrayAction::Ignore);
}

fn labels(playing: bool) -> Vec<(&'static str, &'static str)> {
    tray_menu(playing)
        .into_iter()
        .map(|e| match e {
            TrayEntry::Item { label, id } => (label, id),
            TrayEntry::Separator => ("", ""),
        })
        .collect()
}

#[test]
fn the_menu_offers_pause_while_playing() {
    assert_eq!(
        labels(true),
        vec![
            ("Show Limusic", "show"),
            ("", ""),
            ("Pause", "play_pause"),
            ("Next", "next"),
            ("Previous", "prev"),
            ("", ""),
            ("Restart", "restart"),
            ("Quit", "quit"),
        ]
    );
    assert_eq!(labels(false)[2], ("Play", "play_pause"));
}

#[test]
fn tray_pixels_put_alpha_first() {
    assert_eq!(argb_pixels(&[1, 2, 3, 4, 5, 6, 7, 8]), vec![4, 1, 2, 3, 8, 5, 6, 7]);
    // Bytes past the last whole pixel are left alone.
    assert_eq!(argb_pixels(&[1, 2, 3, 4, 9, 9]), vec![4, 1, 2, 3, 9, 9]);
    assert_eq!(argb_pixels(&[]), Vec::<u8>::new());
}
