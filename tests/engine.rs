use file_picker::app::{App, Direction};
use file_picker::ranking::rank_candidates;
use file_picker::session::{final_selection, handle_event, InputEvent, Outcome, SessionState};
use file_picker::ui::{FileList, Input};

fn strings(v: &[&str]) -> Vec<String> {
    v.iter().map(|s| s.to_string()).collect()
}

fn type_text(app: &mut App, text: &str) {
    for c in text.chars() {
        app.insert_char(c);
    }
}

#[test]
fn empty_query_passes_everything_through() {
    let files = strings(&["b.rs", "a.rs", "c/d.rs", "a.rs"]);
    let app = App::new(files.clone());
    assert_eq!(app.query, "");
    assert_eq!(app.selected, 0);
    assert_eq!(app.filtered_files, files);
    assert_eq!(app.filtered_scores, vec![None, None, None, None]);
}

#[test]
fn empty_candidate_set() {
    let mut app = App::new(Vec::new());
    assert!(app.filtered_files.is_empty());
    assert_eq!(app.current_selection(), None);
    app.move_cursor(Direction::Down);
    app.move_cursor(Direction::Up);
    assert_eq!(app.selected, 0);
    app.insert_char('x');
    assert!(app.filtered_files.is_empty());
    assert_eq!(app.current_selection(), None);
}

#[test]
fn filter_keeps_only_matches() {
    let mut app = App::new(strings(&["apple.txt", "banana.txt", "applesauce.txt"]));
    type_text(&mut app, "app");
    assert_eq!(app.query, "app");
    let mut got = app.filtered_files.clone();
    got.sort();
    assert_eq!(got, strings(&["apple.txt", "applesauce.txt"]));
    assert_eq!(app.filtered_scores.len(), 2);
    assert!(app.filtered_scores.iter().all(|s| s.is_some()));
    assert!(app.filtered_scores[0] >= app.filtered_scores[1]);
}

#[test]
fn ranking_is_by_score_then_input_order() {
    let files = strings(&["xa", "ab", "za", "ca", "ba", "qq"]);
    let (names, scores) = rank_candidates(&files, &"a".to_string());
    assert_eq!(names.len(), scores.len());
    assert!(!names.contains(&"qq".to_string()));
    assert_eq!(names.len(), 5);
    for k in 1..scores.len() {
        assert!(scores[k - 1].unwrap() >= scores[k].unwrap());
    }
    // Candidates of equal score appear in their input order.
    let index_of = |name: &str| files.iter().position(|f| f == name).unwrap();
    for k in 1..names.len() {
        if scores[k - 1] == scores[k] {
            assert!(index_of(&names[k - 1]) < index_of(&names[k]));
        }
    }
}

#[test]
fn ranking_with_no_match_is_empty() {
    let files = strings(&["abc", "def"]);
    let (names, scores) = rank_candidates(&files, &"zzz".to_string());
    assert!(names.is_empty());
    assert!(scores.is_empty());
}

#[test]
fn exact_name_ranks_above_scattered_match() {
    let files = strings(&["a_x_p_y_p.rs", "app.rs"]);
    let (names, scores) = rank_candidates(&files, &"app".to_string());
    assert_eq!(names, strings(&["app.rs", "a_x_p_y_p.rs"]));
    assert!(scores[0].unwrap() > scores[1].unwrap());
}

#[test]
fn edit_resets_cursor() {
    let mut app = App::new(strings(&["apple.txt", "banana.txt", "applesauce.txt"]));
    app.move_cursor(Direction::Down);
    app.move_cursor(Direction::Down);
    assert_eq!(app.selected, 2);
    app.insert_char('a');
    assert_eq!(app.selected, 0);
    assert_eq!(app.filtered_files.len(), 3);
    app.move_cursor(Direction::Down);
    assert_eq!(app.selected, 1);
    app.remove_char();
    assert_eq!(app.selected, 0);
    assert_eq!(app.query, "");
    assert_eq!(app.filtered_files, strings(&["apple.txt", "banana.txt", "applesauce.txt"]));
}

#[test]
fn navigation_stops_at_both_ends() {
    let mut app = App::new(strings(&["a", "b", "c"]));
    app.move_cursor(Direction::Up);
    assert_eq!(app.selected, 0);
    app.move_cursor(Direction::Down);
    app.move_cursor(Direction::Down);
    assert_eq!(app.selected, 2);
    app.move_cursor(Direction::Down);
    assert_eq!(app.selected, 2);
    app.move_cursor(Direction::Up);
    assert_eq!(app.selected, 1);

    let mut one = App::new(strings(&["only"]));
    one.move_cursor(Direction::Down);
    assert_eq!(one.selected, 0);
    one.move_cursor(Direction::Up);
    assert_eq!(one.selected, 0);
    assert_eq!(one.current_selection(), Some("only".to_string()));
}

#[test]
fn deleting_from_empty_query_changes_nothing() {
    let mut app = App::new(strings(&["x.rs", "y.rs"]));
    let files = app.filtered_files.clone();
    app.remove_char();
    assert_eq!(app.query, "");
    assert_eq!(app.filtered_files, files);
    assert_eq!(app.filtered_scores, vec![None, None]);
    assert_eq!(app.selected, 0);
}

#[test]
fn deleting_from_empty_query_keeps_cursor() {
    let mut app = App::new(strings(&["a", "b"]));
    app.move_cursor(Direction::Down);
    assert_eq!(app.selected, 1);
    app.remove_char();
    assert_eq!(app.query, "");
    assert_eq!(app.filtered_files, strings(&["a", "b"]));
    assert_eq!(app.selected, 1);
    let state = handle_event(&mut app, SessionState::Editing, InputEvent::DeleteBack);
    assert_eq!(state, SessionState::Editing);
    assert_eq!(app.selected, 1);
    assert_eq!(app.current_selection(), Some("b".to_string()));
}

#[test]
fn smart_case_matching() {
    let files = strings(&["ReadMe.md", "readme.md"]);
    let (lower, _) = rank_candidates(&files, &"rm".to_string());
    assert_eq!(lower.len(), 2);
    let (upper, _) = rank_candidates(&files, &"RM".to_string());
    assert_eq!(upper, strings(&["ReadMe.md"]));
}

#[test]
fn recompute_twice_gives_same_view() {
    let mut app = App::new(strings(&["src/main.rs", "src/app.rs", "README.md"]));
    app.query.push_str("sr");
    app.update_filtered_files();
    let files = app.filtered_files.clone();
    let scores = app.filtered_scores.clone();
    let selected = app.selected;
    app.update_filtered_files();
    assert_eq!(app.filtered_files, files);
    assert_eq!(app.filtered_scores, scores);
    assert_eq!(app.selected, selected);
}

#[test]
fn typing_app_ranks_app_rs_first() {
    let mut app = App::new(strings(&["main.rs", "app.rs", "ui/input.rs"]));
    let mut state = SessionState::Editing;
    for ev in [InputEvent::InsertChar('a'), InputEvent::InsertChar('p'), InputEvent::InsertChar('p')] {
        state = handle_event(&mut app, state, ev);
    }
    assert_eq!(state, SessionState::Editing);
    assert_eq!(app.query, "app");
    assert_eq!(app.filtered_files[0], "app.rs");
    // "app.rs" is the only candidate that holds the letters a, p, p in order, so
    // moving down stays on it.
    assert_eq!(app.filtered_files.len(), 1);
    state = handle_event(&mut app, state, InputEvent::Down);
    state = handle_event(&mut app, state, InputEvent::Confirm);
    assert_eq!(state, SessionState::Finished(Outcome::Confirmed));
    assert_eq!(final_selection(&app, state), Some("app.rs".to_string()));
}

#[test]
fn down_then_confirm_picks_second_ranked() {
    let mut app = App::new(strings(&["main.rs", "app.rs", "apps/input.rs"]));
    let mut state = SessionState::Editing;
    for ev in [InputEvent::InsertChar('a'), InputEvent::InsertChar('p'), InputEvent::InsertChar('p')] {
        state = handle_event(&mut app, state, ev);
    }
    assert_eq!(app.filtered_files.len(), 2);
    let second = app.filtered_files[1].clone();
    state = handle_event(&mut app, state, InputEvent::Down);
    state = handle_event(&mut app, state, InputEvent::Confirm);
    assert_eq!(final_selection(&app, state), Some(second));
}

#[test]
fn cancel_gives_no_answer_and_ends_the_session() {
    let mut app = App::new(strings(&["a.rs", "b.rs"]));
    let state = handle_event(&mut app, SessionState::Editing, InputEvent::Cancel);
    assert_eq!(state, SessionState::Finished(Outcome::Cancelled));
    assert_eq!(final_selection(&app, state), None);
    let state = handle_event(&mut app, state, InputEvent::InsertChar('z'));
    assert_eq!(state, SessionState::Finished(Outcome::Cancelled));
    assert_eq!(app.query, "");
    let state = handle_event(&mut app, state, InputEvent::Confirm);
    assert_eq!(state, SessionState::Finished(Outcome::Cancelled));
}

#[test]
fn editing_session_gives_no_answer_yet() {
    let mut app = App::new(strings(&["a.rs"]));
    let state = handle_event(&mut app, SessionState::Editing, InputEvent::Down);
    assert_eq!(state, SessionState::Editing);
    assert_eq!(final_selection(&app, state), None);
}

#[test]
fn delete_back_event_shortens_query() {
    let mut app = App::new(strings(&["ab", "b"]));
    let mut state = SessionState::Editing;
    state = handle_event(&mut app, state, InputEvent::InsertChar('a'));
    assert_eq!(app.filtered_files, strings(&["ab"]));
    state = handle_event(&mut app, state, InputEvent::DeleteBack);
    assert_eq!(state, SessionState::Editing);
    assert_eq!(app.query, "");
    assert_eq!(app.filtered_files, strings(&["ab", "b"]));
}

#[test]
fn renderer_projection() {
    let mut app = App::new(strings(&["one", "two"]));
    assert_eq!(FileList::rows(&app), strings(&["one", "two"]));
    assert_eq!(FileList::highlighted(&app), Some(0));
    app.move_cursor(Direction::Down);
    assert_eq!(FileList::highlighted(&app), Some(1));
    app.insert_char('t');
    assert_eq!(Input::text(&app), "t");
    assert_eq!(FileList::rows(&app), strings(&["two"]));
    app.insert_char('q');
    assert_eq!(FileList::rows(&app), Vec::<String>::new());
    assert_eq!(FileList::highlighted(&app), None);
}

#[test]
fn each_keystroke_narrows_the_view() {
    let mut app = App::new(strings(&["apple.txt", "banana.txt", "applesauce.txt", "cap.rs"]));
    let mut previous = app.filtered_files.clone();
    for c in "apps".chars() {
        app.insert_char(c);
        assert!(app.filtered_files.len() <= previous.len());
        assert!(app.filtered_files.iter().all(|f| previous.contains(f)));
        previous = app.filtered_files.clone();
    }
    assert_eq!(previous, strings(&["applesauce.txt"]));
}
