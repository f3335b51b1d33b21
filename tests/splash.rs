use missile_tables::splash::{
    plan_live, CalcError, SearchStep, SplashAnswer, SplashSearch, INITIAL_TARGET_DISTANCE,
};

#[test]
fn search_moves_target_in_by_two_hundred() {
    let mut s = SplashSearch::new(10000);
    assert_eq!(s.observe(false), SearchStep::Simulate(9800));
    assert_eq!(s.observe(false), SearchStep::Simulate(9600));
    assert_eq!(s.distance_to_target(), 9600);
}

#[test]
fn search_stops_on_splash() {
    let mut s = SplashSearch::new(10000);
    assert_eq!(s.observe(false), SearchStep::Simulate(9800));
    assert_eq!(s.observe(true), SearchStep::Splashed);
    assert_eq!(s.distance_to_target(), 9800);
}

#[test]
fn search_gives_up_before_the_launch_point() {
    let mut s = SplashSearch::new(INITIAL_TARGET_DISTANCE);
    let mut runs: u32 = 1;
    loop {
        match s.observe(false) {
            SearchStep::Simulate(_) => runs += 1,
            SearchStep::Exhausted => break,
            SearchStep::Splashed => panic!("no splash was reported"),
        }
    }
    assert_eq!(runs, 50);
    assert_eq!(s.distance_to_target(), 200);
    let mut s = SplashSearch::new(201);
    assert_eq!(s.observe(false), SearchStep::Simulate(1));
    assert_eq!(s.observe(false), SearchStep::Exhausted);
}

#[test]
fn live_plan_without_splash_search() {
    let p = plan_live(3, 1, 0, false).unwrap();
    assert_eq!(p.missile_index, 1);
    assert_eq!(p.altitude, 0);
    assert!(!p.surface_launch);
    assert_eq!(p.target_distance, 10000);
    assert!(p.search.is_none());
    assert_eq!(SplashAnswer::NotRequested.text(), "-");
}

#[test]
fn live_plan_with_splash_search() {
    let p = plan_live(3, 2, 1500, true).unwrap();
    assert_eq!(p.search.unwrap().distance_to_target(), 10000);
    assert_eq!(p.altitude, 1500);
}

#[test]
fn live_plan_rejects_unknown_missile() {
    assert_eq!(plan_live(3, 3, 0, true).unwrap_err(), CalcError::MissileIndex);
    assert_eq!(plan_live(0, 0, 0, false).unwrap_err(), CalcError::MissileIndex);
}

#[test]
fn splash_answer_texts() {
    assert_eq!(SplashAnswer::At("8400".to_string()).text(), "8400");
    assert_eq!(SplashAnswer::NotFound.text(), "no splash found");
}
