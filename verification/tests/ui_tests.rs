use todo::render::{centered_rect, render_frame, Body, Rect};
use todo::store::remove_task_at;
use todo::task::Task;
use todo::ui::{confirm_remove, dispatch, nav_down, nav_up, Action, Event, Key, MenuItem, UiState};

fn task(id: usize, name: &str) -> Task {
    Task {
        id,
        name: name.to_string(),
        created_at: "t".to_string(),
        completed_at: None,
    }
}

fn tasks_state() -> UiState {
    UiState { active: MenuItem::Tasks, selected: 0, popup: false }
}

#[test]
fn initial_state() {
    let s = UiState::init();
    assert_eq!(s.active, MenuItem::Home);
    assert_eq!(s.selected, 0);
    assert!(!s.popup);
}

#[test]
fn navigation_wraps_at_both_ends() {
    for n in 1..6usize {
        assert_eq!(nav_down(n - 1, n), 0);
        assert_eq!(nav_up(0, n), n - 1);
    }
    assert_eq!(nav_down(0, 3), 1);
    assert_eq!(nav_down(1, 3), 2);
    assert_eq!(nav_up(2, 3), 1);
    assert_eq!(nav_down(0, 0), 0);
    assert_eq!(nav_up(0, 0), 0);
}

#[test]
fn down_from_last_selects_first() {
    let mut s = UiState { selected: 2, ..tasks_state() };
    let a = dispatch(&mut s, Event::Input(Key::Down), 3);
    assert_eq!(a, Action::Continue);
    assert_eq!(s.selected, 0);
}

#[test]
fn up_from_first_selects_last() {
    let mut s = tasks_state();
    let a = dispatch(&mut s, Event::Input(Key::Up), 3);
    assert_eq!(a, Action::Continue);
    assert_eq!(s.selected, 2);
}

#[test]
fn navigation_ignored_outside_task_view() {
    let mut s = UiState::init();
    dispatch(&mut s, Event::Input(Key::Down), 3);
    assert_eq!(s.selected, 0);
    dispatch(&mut s, Event::Input(Key::Up), 3);
    assert_eq!(s.selected, 0);
}

#[test]
fn delete_key_removes_selected_and_reselects() {
    let mut tasks = vec![task(0, "a"), task(1, "b"), task(2, "c")];
    let mut s = tasks_state();
    let a = dispatch(&mut s, Event::Input(Key::Char('d')), tasks.len());
    assert_eq!(a, Action::Remove(0));
    assert!(remove_task_at(&mut tasks, 0).is_ok());
    confirm_remove(&mut s);
    let ids: Vec<usize> = tasks.iter().map(|t| t.id).collect();
    assert_eq!(ids, [1, 2]);
    assert_eq!(s.selected, 0);
}

#[test]
fn delete_key_at_later_index_selects_previous() {
    let mut s = UiState { selected: 2, ..tasks_state() };
    let a = dispatch(&mut s, Event::Input(Key::Char('d')), 3);
    assert_eq!(a, Action::Remove(2));
    confirm_remove(&mut s);
    assert_eq!(s.selected, 1);
}

#[test]
fn delete_key_ignored_on_home_view() {
    let mut s = UiState::init();
    let a = dispatch(&mut s, Event::Input(Key::Char('d')), 3);
    assert_eq!(a, Action::Continue);
}

#[test]
fn popup_opens_on_a_and_closes_on_enter() {
    let mut s = UiState::init();
    assert!(!s.popup);
    dispatch(&mut s, Event::Input(Key::Char('a')), 0);
    assert!(s.popup);
    dispatch(&mut s, Event::Input(Key::Enter), 0);
    assert!(!s.popup);
}

#[test]
fn view_switching_and_quit() {
    let mut s = UiState::init();
    assert_eq!(dispatch(&mut s, Event::Input(Key::Char('t')), 0), Action::Continue);
    assert_eq!(s.active, MenuItem::Tasks);
    assert_eq!(dispatch(&mut s, Event::Input(Key::Char('h')), 0), Action::Continue);
    assert_eq!(s.active, MenuItem::Home);
    assert_eq!(dispatch(&mut s, Event::Input(Key::Char('q')), 0), Action::Quit);
    assert_eq!(dispatch(&mut s, Event::Input(Key::Char('z')), 0), Action::Continue);
    assert_eq!(dispatch(&mut s, Event::Input(Key::Other), 0), Action::Continue);
    assert_eq!(dispatch(&mut s, Event::Tick, 0), Action::Continue);
    assert_eq!(s, UiState::init());
}

#[test]
fn menu_positions() {
    assert_eq!(MenuItem::Home.index(), 0);
    assert_eq!(MenuItem::Tasks.index(), 1);
}

#[test]
fn centered_rect_covers_the_middle() {
    let area = Rect { x: 0, y: 0, width: 100, height: 50 };
    let r = centered_rect(60, 20, area);
    assert_eq!(r, Rect { x: 20, y: 20, width: 60, height: 10 });
    let odd = centered_rect(50, 50, Rect { x: 2, y: 3, width: 9, height: 7 });
    assert_eq!(odd, Rect { x: 4, y: 5, width: 4, height: 3 });
}

#[test]
fn home_frame_shows_welcome_panel() {
    let tasks: Vec<Task> = Vec::new();
    let size = Rect { x: 0, y: 0, width: 80, height: 24 };
    let f = render_frame(&UiState::init(), &tasks, size);
    assert_eq!(f.menu_selected, 0);
    assert!(matches!(f.body, Body::Home));
    assert!(f.popup.is_none());
}

#[test]
fn task_frame_lists_names_and_details_selection() {
    let tasks = vec![
        task(0, "a"),
        Task {
            id: 11,
            name: "b".to_string(),
            created_at: "c1".to_string(),
            completed_at: Some("c2".to_string()),
        },
    ];
    let size = Rect { x: 0, y: 0, width: 80, height: 24 };
    let state = UiState { active: MenuItem::Tasks, selected: 1, popup: true };
    let f = render_frame(&state, &tasks, size);
    assert_eq!(f.menu_selected, 1);
    match f.body {
        Body::Tasks { names, selected, detail } => {
            assert_eq!(names, ["a", "b"]);
            assert_eq!(selected, 1);
            let d = detail.unwrap();
            assert_eq!(d.id_text, "11");
            assert_eq!(d.name, "b");
            assert_eq!(d.created_at, "c1");
            assert_eq!(d.completed_at, "c2");
        },
        Body::Home => panic!("expected the task view"),
    }
    let popup = f.popup.unwrap();
    assert_eq!(popup, Rect { x: 16, y: 10, width: 48, height: 4 });
}

#[test]
fn empty_task_frame_has_no_detail() {
    let tasks: Vec<Task> = Vec::new();
    let size = Rect { x: 0, y: 0, width: 80, height: 24 };
    let f = render_frame(&tasks_state(), &tasks, size);
    match f.body {
        Body::Tasks { names, detail, .. } => {
            assert!(names.is_empty());
            assert!(detail.is_none());
        },
        Body::Home => panic!("expected the task view"),
    }
}
