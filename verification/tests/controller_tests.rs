use rbar::controller::{ConfigurePlan, Directive, OverlayController, Selection};

fn selection(image: &str, audio: &str) -> Selection {
    Selection { image_path: image.to_string(), audio_path: audio.to_string() }
}

fn count_stops(dirs: &[Directive]) -> usize {
    dirs.iter().filter(|d| matches!(d, Directive::StopAudio)).count()
}

#[test]
fn starts_hidden_and_empty() {
    let c = OverlayController::new();
    assert!(!c.is_shown());
    assert!(c.needs_selection());
    assert!(c.outputs.is_empty());
}

#[test]
fn new_output_gets_one_init_directive_and_stays_hidden() {
    let mut c = OverlayController::new();
    let dirs = c.output_added(7);
    assert_eq!(dirs, vec![Directive::InitSurface { id: 7 }]);
    assert!(!c.is_shown());
    // the same identity again is left untouched
    let dirs = c.output_added(7);
    assert!(dirs.is_empty());
    assert_eq!(c.outputs.len(), 1);
}

#[test]
fn removed_output_leaves_the_registry() {
    let mut c = OverlayController::new();
    c.output_added(1);
    c.output_added(2);
    c.output_removed(1);
    assert_eq!(c.outputs.len(), 1);
    assert_eq!(c.outputs[0].id, 2);
    c.output_removed(9);
    assert_eq!(c.outputs.len(), 1);
}

#[test]
fn toggle_cycle_plays_once_and_stops_once() {
    let mut c = OverlayController::new();
    c.output_added(1);
    c.output_added(2);

    // Hidden -> Shown: one configure request per output, nothing else
    let dirs = c.toggle();
    assert!(c.is_shown());
    assert_eq!(
        dirs,
        vec![Directive::RequestConfigure { id: 1 }, Directive::RequestConfigure { id: 2 }]
    );
    assert_eq!(count_stops(&dirs), 0);

    // the display layer answers with one configure per output
    let mut plays = 0;
    let mut submits = 0;
    let pick = Some(selection("images/a.png", "music/a.ogg"));
    for (id, w, h) in [(1u64, 800u32, 600u32), (2, 1920, 1080)] {
        let offered = if c.needs_selection() { pick.clone() } else { None };
        match c.configured(id, w, h, offered) {
            ConfigurePlan::Render { width, height, image_path, play_audio } => {
                assert_eq!((width, height), (w, h));
                assert_eq!(image_path, "images/a.png");
                if let Some(audio) = play_audio {
                    assert_eq!(audio, "music/a.ogg");
                    plays += 1;
                }
                submits += 1;
            }
            _ => panic!("expected a render plan while shown"),
        }
    }
    assert_eq!(plays, 1, "audio must start exactly once per session");
    assert_eq!(submits, 2, "each registered output must be painted");

    // Shown -> Hidden: exactly one stop, one clear per output, selection dropped
    let dirs = c.toggle();
    assert!(!c.is_shown());
    assert_eq!(
        dirs,
        vec![
            Directive::StopAudio,
            Directive::ClearSurface { id: 1 },
            Directive::ClearSurface { id: 2 },
        ]
    );
    assert_eq!(count_stops(&dirs), 1);
    assert!(c.needs_selection(), "hiding clears the session selection");

    // a third toggle shows again and asks for a fresh pick
    c.toggle();
    assert!(c.is_shown());
    assert!(c.needs_selection());
}

#[test]
fn configure_while_hidden_only_records_geometry() {
    let mut c = OverlayController::new();
    c.output_added(4);
    match c.configured(4, 640, 480, None) {
        ConfigurePlan::Recorded => {}
        _ => panic!("hidden configure must only record"),
    }
    assert_eq!(c.outputs[0].width, 640);
    assert_eq!(c.outputs[0].height, 480);
    assert!(!c.is_shown());
    assert!(c.needs_selection());
}

#[test]
fn configure_of_unknown_output_is_ignored() {
    let mut c = OverlayController::new();
    c.output_added(1);
    c.toggle();
    match c.configured(99, 640, 480, Some(selection("i", "a"))) {
        ConfigurePlan::UnknownOutput => {}
        _ => panic!("unregistered outputs have no plan"),
    }
    assert!(c.needs_selection(), "an ignored configure must not fix the selection");
}

#[test]
fn reconfigure_during_session_keeps_the_same_image() {
    let mut c = OverlayController::new();
    c.output_added(1);
    c.toggle();
    let first = c.configured(1, 800, 600, Some(selection("images/x.png", "music/x.ogg")));
    match first {
        ConfigurePlan::Render { play_audio, .. } => assert!(play_audio.is_some()),
        _ => panic!("expected a render plan"),
    }
    // a geometry change mid-session redraws with the already-picked image
    let second = c.configured(1, 1024, 768, Some(selection("images/other.png", "music/other.ogg")));
    match second {
        ConfigurePlan::Render { width, height, image_path, play_audio } => {
            assert_eq!((width, height), (1024, 768));
            assert_eq!(image_path, "images/x.png");
            assert!(play_audio.is_none(), "audio is already playing");
        }
        _ => panic!("expected a render plan"),
    }
}

#[test]
fn output_appearing_mid_session_stays_bare_until_an_event() {
    let mut c = OverlayController::new();
    c.output_added(1);
    c.toggle();
    // a new output while shown gets only its bare surface: the accepted lag
    let dirs = c.output_added(2);
    assert_eq!(dirs, vec![Directive::InitSurface { id: 2 }]);
}
