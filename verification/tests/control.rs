use zoom_relay::control::{handle_command, parse_zoom_to, Response, ZoomError};
use zoom_relay::geometry::{full_crop, Crop, CropState};

fn words(line: &str) -> Vec<Vec<char>> {
    line.split(' ').map(|word| word.chars().collect()).collect()
}

fn state_with(crop: Crop) -> CropState {
    let mut state = CropState::new();
    assert!(state.write(crop));
    state
}

fn reply(line: &str, state: &mut CropState) -> Option<String> {
    handle_command(line, state).line()
}

#[test]
fn the_viewport_starts_as_the_whole_frame() {
    let state = CropState::new();
    assert_eq!(state.read(), Crop { x: 0, y: 0, w: 1280, h: 720 });
    assert_eq!(state.read(), full_crop());
}

#[test]
fn the_viewport_is_replaced_by_a_valid_one_only() {
    let mut state = CropState::new();
    assert!(state.write(Crop { x: 1, y: 2, w: 3, h: 4 }));
    assert_eq!(state.read(), Crop { x: 1, y: 2, w: 3, h: 4 });
    assert!(!state.write(Crop { x: 1280, y: 0, w: 1, h: 1 }));
    assert!(!state.write(Crop { x: 0, y: 720, w: 1, h: 1 }));
    assert!(!state.write(Crop { x: 0, y: 0, w: 0, h: 1 }));
    assert!(!state.write(Crop { x: 0, y: 0, w: 1, h: 0 }));
    assert_eq!(state.read(), Crop { x: 1, y: 2, w: 3, h: 4 });
    assert!(state.write(Crop { x: 1279, y: 719, w: 1, h: 1 }));
    assert_eq!(state.read(), Crop { x: 1279, y: 719, w: 1, h: 1 });
}

#[test]
fn zoom_to_inside_the_frame_is_accepted() {
    let mut state = CropState::new();
    let response = handle_command("zoom_to 640x360+320+180", &mut state);
    assert_eq!(response, Response::Accepted);
    assert_eq!(state.read(), Crop { x: 320, y: 180, w: 640, h: 360 });
    assert_eq!(response.line(), Some("OK\n".to_string()));
}

#[test]
fn zoom_to_up_to_the_edges_is_accepted() {
    let mut state = CropState::new();
    assert_eq!(handle_command("zoom_to 1x1+1279+719", &mut state), Response::Accepted);
    assert_eq!(state.read(), Crop { x: 1279, y: 719, w: 1, h: 1 });
    assert_eq!(handle_command("zoom_to 1280x720+0+0", &mut state), Response::Accepted);
    assert_eq!(state.read(), full_crop());
}

#[test]
fn zoom_to_beyond_the_right_edge_is_refused() {
    let before = Crop { x: 10, y: 20, w: 30, h: 40 };
    let mut state = state_with(before);
    let response = handle_command("zoom_to 640x360+641+180", &mut state);
    assert_eq!(response, Response::Refused(ZoomError::OutsideHorizontally));
    assert_eq!(
        response.line(),
        Some("Viewport is outside the screen in horizontal direction\n".to_string())
    );
    assert_eq!(state.read(), before);
}

#[test]
fn zoom_to_beyond_the_bottom_edge_is_refused() {
    let before = Crop { x: 10, y: 20, w: 30, h: 40 };
    let mut state = state_with(before);
    let response = handle_command("zoom_to 640x360+320+361", &mut state);
    assert_eq!(response, Response::Refused(ZoomError::OutsideVertically));
    assert_eq!(
        response.line(),
        Some("Viewport is outside the screen in vertical direction\n".to_string())
    );
    assert_eq!(state.read(), before);
}

#[test]
fn zoom_to_beyond_both_edges_names_the_horizontal_one() {
    let mut state = CropState::new();
    let response = handle_command("zoom_to 1281x721+0+0", &mut state);
    assert_eq!(response, Response::Refused(ZoomError::OutsideHorizontally));
    assert_eq!(state.read(), full_crop());
}

#[test]
fn zoom_to_without_parameter_is_refused() {
    let before = Crop { x: 1, y: 2, w: 3, h: 4 };
    let mut state = state_with(before);
    let response = handle_command("zoom_to", &mut state);
    assert_eq!(response, Response::Refused(ZoomError::MissingParameter));
    assert_eq!(response.line(), Some("Missing parameter\n".to_string()));
    assert_eq!(state.read(), before);
    assert_eq!(reply("  zoom_to \r\n", &mut state), Some("Missing parameter\n".to_string()));
    assert_eq!(state.read(), before);
}

#[test]
fn zoom_to_with_bad_syntax_is_refused() {
    let lines = [
        "zoom_to 640x360",
        "zoom_to 640x360+320",
        "zoom_to 640x360+320+180+1",
        "zoom_to 640+320+180",
        "zoom_to 640x360x1+320+180",
        "zoom_to x360+320+180",
        "zoom_to 640x+320+180",
        "zoom_to 640x360++180",
        "zoom_to 640x360+320+",
        "zoom_to 640x360+-1+180",
        "zoom_to 64ax360+320+180",
        "zoom_to 640X360+320+180",
        "zoom_to 65536x1+0+0",
        "zoom_to 1x1+0+99999999999999999999",
        "zoom_to  640x360+320+180",
        "zoom_to +",
    ];
    for line in lines {
        let before = Crop { x: 5, y: 6, w: 7, h: 8 };
        let mut state = state_with(before);
        let response = handle_command(line, &mut state);
        assert_eq!(response, Response::Refused(ZoomError::IncorrectSyntax), "{:?}", line);
        assert_eq!(response.line(), Some("Incorrect resolution syntax\n".to_string()));
        assert_eq!(state.read(), before, "{:?}", line);
    }
}

#[test]
fn zoom_to_an_empty_viewport_is_refused() {
    for line in ["zoom_to 0x360+0+0", "zoom_to 640x0+0+0", "zoom_to 0x0+2000+2000"] {
        let mut state = CropState::new();
        let response = handle_command(line, &mut state);
        assert_eq!(response, Response::Refused(ZoomError::IncorrectSyntax), "{:?}", line);
        assert_eq!(state.read(), full_crop());
    }
}

#[test]
fn zoom_to_takes_leading_zeros_and_ignores_further_words() {
    let mut state = CropState::new();
    assert_eq!(
        handle_command("zoom_to 0000000000000000000000640x0360+00+000 and more", &mut state),
        Response::Accepted
    );
    assert_eq!(state.read(), Crop { x: 0, y: 0, w: 640, h: 360 });
}

#[test]
fn the_line_is_trimmed_of_all_white_space() {
    let mut state = CropState::new();
    let line = "\u{3000}\u{a0}\t\n zoom_to 2x3+4+5 \u{2028}\u{85}\u{b}\u{c}\r\n";
    assert_eq!(handle_command(line, &mut state), Response::Accepted);
    assert_eq!(state.read(), Crop { x: 4, y: 5, w: 2, h: 3 });
}

#[test]
fn words_are_parted_by_blanks_only() {
    let mut state = CropState::new();
    assert_eq!(handle_command("zoom_to\t2x3+4+5", &mut state), Response::UnknownCommand);
    assert_eq!(handle_command("zoom_to\u{a0}2x3+4+5", &mut state), Response::UnknownCommand);
    assert_eq!(state.read(), full_crop());
}

#[test]
fn get_resolution_gives_the_frame_size() {
    for before in [full_crop(), Crop { x: 1, y: 2, w: 3, h: 4 }] {
        let mut state = state_with(before);
        let response = handle_command("get_resolution", &mut state);
        assert_eq!(response, Response::Resolution);
        assert_eq!(response.line(), Some("1280x720\n".to_string()));
        assert_eq!(state.read(), before);
    }
}

#[test]
fn get_resolution_ignores_further_words() {
    let mut state = CropState::new();
    assert_eq!(reply("get_resolution now", &mut state), Some("1280x720\n".to_string()));
}

#[test]
fn repeating_a_zoom_to_changes_nothing_more() {
    let mut state = CropState::new();
    assert_eq!(reply("zoom_to 100x200+300+400", &mut state), Some("OK\n".to_string()));
    let after_first = state.read();
    assert_eq!(after_first, Crop { x: 300, y: 400, w: 100, h: 200 });
    assert_eq!(reply("zoom_to 100x200+300+400", &mut state), Some("OK\n".to_string()));
    assert_eq!(state.read(), after_first);
}

#[test]
fn get_image_asks_for_a_snapshot() {
    let before = Crop { x: 1, y: 2, w: 3, h: 4 };
    let mut state = state_with(before);
    let response = handle_command("get_image", &mut state);
    assert_eq!(response, Response::Snapshot);
    assert_eq!(response.line(), None);
    assert_eq!(state.read(), before);
}

#[test]
fn other_lines_are_unknown_commands() {
    for line in ["", " ", "zoom", "zoom_to1x1+0+0", "ZOOM_TO 1x1+0+0", "get_resolution\u{0}", "x y"] {
        let mut state = CropState::new();
        let response = handle_command(line, &mut state);
        assert_eq!(response, Response::UnknownCommand, "{:?}", line);
        assert_eq!(response.line(), Some("Unknown command\n".to_string()));
        assert_eq!(state.read(), full_crop());
    }
}

#[test]
fn every_error_has_its_message() {
    assert_eq!(ZoomError::MissingParameter.message(), "Missing parameter");
    assert_eq!(ZoomError::IncorrectSyntax.message(), "Incorrect resolution syntax");
    assert_eq!(
        ZoomError::OutsideHorizontally.message(),
        "Viewport is outside the screen in horizontal direction"
    );
    assert_eq!(
        ZoomError::OutsideVertically.message(),
        "Viewport is outside the screen in vertical direction"
    );
}

#[test]
fn parse_zoom_to_reads_the_second_word() {
    assert_eq!(
        parse_zoom_to(&words("zoom_to 640x360+320+180")),
        Ok(Crop { x: 320, y: 180, w: 640, h: 360 })
    );
    assert_eq!(parse_zoom_to(&words("anything 1x2+3+4 5x6+7+8")), Ok(Crop { x: 3, y: 4, w: 1, h: 2 }));
    assert_eq!(parse_zoom_to(&words("zoom_to")), Err(ZoomError::MissingParameter));
    assert_eq!(parse_zoom_to(&Vec::new()), Err(ZoomError::MissingParameter));
    assert_eq!(parse_zoom_to(&words("zoom_to  1x2+3+4")), Err(ZoomError::IncorrectSyntax));
    assert_eq!(parse_zoom_to(&words("zoom_to 1280x1+1+0")), Err(ZoomError::OutsideHorizontally));
    assert_eq!(parse_zoom_to(&words("zoom_to 1280x720+0+1")), Err(ZoomError::OutsideVertically));
    assert_eq!(
        parse_zoom_to(&words("zoom_to 65535x65535+65535+65535")),
        Err(ZoomError::OutsideHorizontally)
    );
}
