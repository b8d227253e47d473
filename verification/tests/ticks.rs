use respack::coordinator::{LoadCoordinator, Screen, PROGRESS_SCALE};
use respack::metadata::{
    ParseError, Respack, RespackData, RespackError, RespackInfo, RespackResult,
};

fn pack(path: &str) -> Respack {
    Respack {
        path: String::from(path),
        data: RespackData { info: RespackInfo::default() },
    }
}

fn progress_of(c: &LoadCoordinator) -> u32 {
    match c.screen() {
        Screen::Loading { progress } => *progress,
        Screen::Error { message } => panic!("unexpected error screen: {message}"),
    }
}

#[test]
fn new_coordinator_is_loading_from_zero() {
    let c = LoadCoordinator::new();
    assert_eq!(progress_of(&c), 0);
    assert_eq!(c.packs().len(), 0);
}

#[test]
fn n_successful_loads_end_as_n_packs() {
    let mut c = LoadCoordinator::new();
    // Three loads finish across two ticks, in no particular order.
    c.tick(vec![Ok(pack("b.zip")), Ok(pack("a.zip"))], &vec![500]);
    assert_eq!(c.packs().len(), 2);
    assert_eq!(progress_of(&c), 500);
    c.tick(vec![Ok(pack("c.zip"))], &vec![]);
    assert_eq!(c.packs().len(), 3);
    assert_eq!(progress_of(&c), PROGRESS_SCALE);
    assert_eq!(c.packs()[0].path, "b.zip");
    assert_eq!(c.packs()[1].path, "a.zip");
    assert_eq!(c.packs()[2].path, "c.zip");
}

#[test]
fn empty_ticks_keep_loading() {
    let mut c = LoadCoordinator::new();
    c.tick(vec![], &vec![0, 0]);
    assert_eq!(progress_of(&c), 0);
    c.tick(vec![], &vec![250, 750]);
    assert_eq!(progress_of(&c), 500);
    assert_eq!(c.packs().len(), 0);
}

#[test]
fn first_failure_becomes_the_error_screen() {
    let mut c = LoadCoordinator::new();
    let results: Vec<RespackResult<Respack>> = vec![
        Ok(pack("a.zip")),
        Err(RespackError::Parse(ParseError::Malformed)),
        Ok(pack("late.zip")),
    ];
    c.tick(results, &vec![0]);
    // The success before the failure is kept; what follows is abandoned.
    assert_eq!(c.packs().len(), 1);
    assert_eq!(c.packs()[0].path, "a.zip");
    match c.screen() {
        Screen::Error { message } => {
            assert_eq!(message, "resource pack metadata is malformed");
        }
        Screen::Loading { .. } => panic!("screen should show the error"),
    }
}

#[test]
fn error_screen_is_terminal() {
    let mut c = LoadCoordinator::new();
    c.tick(vec![Err(RespackError::Parse(ParseError::Malformed))], &vec![]);
    c.tick(vec![Ok(pack("late.zip"))], &vec![1000]);
    assert_eq!(c.packs().len(), 0);
    match c.screen() {
        Screen::Error { message } => {
            assert_eq!(message, "resource pack metadata is malformed");
        }
        Screen::Loading { .. } => panic!("error screen should be terminal"),
    }
}

#[test]
fn average_progress_rounds_down() {
    let mut c = LoadCoordinator::new();
    c.tick(vec![], &vec![0, 0, 1000]);
    assert_eq!(progress_of(&c), 333);
}
