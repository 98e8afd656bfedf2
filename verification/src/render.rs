//! What each frame shows, as plain data. The drawing layer turns a `Frame`
//! into styled widgets, but every choice of content — which tab is
//! highlighted, which names are listed, which detail row is shown, where
//! the overlay sits — is made and fixed here.

use vstd::prelude::*;
use crate::codec::dec;
use crate::codec::decimal_string;
use crate::task::Task;
use crate::ui::{MenuItem, UiState, menu_index};

verus! {

/// A rectangular region of the screen, in cells.
#[derive(Clone, Copy, Debug, PartialEq, Eq, Structural)]
pub struct Rect {
    pub x: u16,
    pub y: u16,
    pub width: u16,
    pub height: u16,
}

/// The detail row of the selected task, as shown: the id as decimal text,
/// the name, the creation timestamp, and the completion timestamp or empty
/// text for a task not yet completed.
pub struct Detail {
    pub id_text: String,
    pub name: String,
    pub created_at: String,
    pub completed_at: String,
}

/// Which main panel a frame shows.
pub enum Body {
    /// The static welcome panel.
    Home,
    /// The task list: the names to list, the highlighted entry, and the
    /// detail row of the selected task, absent only when no task exists.
    Tasks { names: Vec<String>, selected: usize, detail: Option<Detail> },
}

/// A frame: the highlighted menu tab, the main panel, and the add-task
/// overlay's place when it is shown.
pub struct Frame {
    pub menu_selected: usize,
    pub body: Body,
    pub popup: Option<Rect>,
}

/// The centered sub-rectangle covering the given percentages of `area`,
/// where the overlay is drawn.
pub fn centered_rect(percent_x: u16, percent_y: u16, area: Rect) -> (r: Rect)
    requires
        percent_x <= 100,
        percent_y <= 100,
        area.x + area.width <= u16::MAX,
        area.y + area.height <= u16::MAX,
    ensures
        r.width == area.width * percent_x / 100,
        r.height == area.height * percent_y / 100,
        r.x == area.x + (area.width - r.width) / 2,
        r.y == area.y + (area.height - r.height) / 2,
        area.x <= r.x && r.x + r.width <= area.x + area.width,
        area.y <= r.y && r.y + r.height <= area.y + area.height,
{
    proof {
        let wv = area.width as int;
        let hv = area.height as int;
        let px = percent_x as int;
        let py = percent_y as int;
        assert(wv * px / 100 <= wv) by (nonlinear_arith)
            requires
                0 <= wv,
                0 <= px,
                px <= 100,
        ;
        assert(hv * py / 100 <= hv) by (nonlinear_arith)
            requires
                0 <= hv,
                0 <= py,
                py <= 100,
        ;
    }
    let w = (area.width as u64 * percent_x as u64 / 100) as u16;
    let h = (area.height as u64 * percent_y as u64 / 100) as u16;
    let x = area.x + (area.width - w) / 2;
    let y = area.y + (area.height - h) / 2;
    Rect { x, y, width: w, height: h }
}

/// The frame for a UI state and a task snapshot: the active view's tab is
/// highlighted; the home view shows the welcome panel; the task view lists
/// every task's name, keeps the cursor where the state has it, and details
/// the selected task; the overlay is placed exactly when the state shows
/// it, centered over sixty by twenty percent of the screen.
pub fn render_frame(state: &UiState, tasks: &Vec<Task>, size: Rect) -> (f: Frame)
    requires
        state.active is Tasks && tasks@.len() > 0 ==> state.selected < tasks@.len(),
        size.x + size.width <= u16::MAX,
        size.y + size.height <= u16::MAX,
    ensures
        f.menu_selected == menu_index(state.active),
        state.popup <==> f.popup is Some,
        state.active is Home ==> f.body is Home,
        state.active is Tasks ==> (f.body matches Body::Tasks { names, selected, detail }
            && names@.len() == tasks@.len() && (forall|k: int|
            0 <= k < tasks@.len() ==> (#[trigger] names@[k])@ == tasks@[k]@.name) && selected
            == state.selected && (tasks@.len() == 0 <==> detail is None) && (detail matches Some(
            d,
        ) ==> tasks@.len() > 0 && d.id_text@ == dec(tasks@[state.selected as int]@.id)
            && d.name@ == tasks@[state.selected as int]@.name && d.created_at@
            == tasks@[state.selected as int]@.created_at && (match tasks@[state.selected as int]@
            .completed_at {
            Some(c) => d.completed_at@ == c,
            None => d.completed_at@.len() == 0,
        }))),
        f.popup matches Some(r) ==> r.width == size.width * 60 / 100 && r.height == size.height
            * 20 / 100 && r.x == size.x + (size.width - r.width) / 2 && r.y == size.y + (
        size.height - r.height) / 2,
{
    let body = match state.active {
        MenuItem::Home => Body::Home,
        MenuItem::Tasks => {
            let mut names: Vec<String> = Vec::new();
            let mut i: usize = 0;
            while i < tasks.len()
                invariant
                    i <= tasks@.len(),
                    names@.len() == i,
                    forall|k: int| 0 <= k < i ==> (#[trigger] names@[k])@ == tasks@[k]@.name,
                decreases tasks@.len() - i,
            {
                names.push(tasks[i].name.clone());
                i = i + 1;
            }
            let detail = if tasks.len() == 0 {
                None
            } else {
                let t = &tasks[state.selected];
                let completed_at = match t.completed_at {
                    Some(ref c) => c.clone(),
                    None => String::new(),
                };
                Some(
                    Detail {
                        id_text: decimal_string(t.id),
                        name: t.name.clone(),
                        created_at: t.created_at.clone(),
                        completed_at,
                    },
                )
            };
            Body::Tasks { names, selected: state.selected, detail }
        },
    };
    let popup = if state.popup {
        Some(centered_rect(60, 20, size))
    } else {
        None
    };
    Frame { menu_selected: state.active.index(), body, popup }
}

} // verus!
