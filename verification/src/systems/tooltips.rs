//! Tooltips: the names of the entities under the mouse.

use vstd::prelude::*;
use crate::geometry::Point;

verus! {

/// The text that `format!` makes of the pattern `{} ({} HP)`, a name and a
/// number.
pub uninterp spec fn health_label(name: Seq<char>, hp: int) -> Seq<char>;

/// `format!` with the pattern `{} ({} HP)`: a name with hit points.
#[verifier::external_body]
pub(crate) fn format_label(name: &String, hp: i32) -> (label: String)
    ensures
        label@ == health_label(name@, hp as int),
{
    format!("{} ({} HP)", name, hp)
}

/// An entity with a name: where it stands, and its hit points if it has any.
#[derive(Debug)]
pub struct Named {
    pub pos: Point,
    pub name: String,
    pub health: Option<i32>,
}

/// A text to show at a cell of the display's fine grid.
#[derive(Debug)]
pub struct Tooltip {
    pub at: Point,
    pub text: String,
}

/// The text for an entity: its name, with its hit points where it has any.
pub open spec fn tooltip_text(named: Named) -> Seq<char> {
    match named.health {
        Some(hp) => health_label(named.name@, hp as int),
        None => named.name@,
    }
}

/// The entities among `named` that stand at `pos`, in their order.
pub open spec fn pointed_at(named: Seq<Named>, pos: Point) -> Seq<Named>
    decreases named.len(),
{
    if named.len() == 0 {
        Seq::empty()
    } else if named.last().pos == pos {
        pointed_at(named.drop_last(), pos).push(named.last())
    } else {
        pointed_at(named.drop_last(), pos)
    }
}

/// True when the sum of the mouse position and the camera's corner, and the
/// mouse position times four, are within the range of the coordinates.
pub open spec fn in_view(mouse_pos: Point, left_x: i32, top_y: i32) -> bool {
    &&& i32::MIN <= mouse_pos.x + left_x <= i32::MAX
    &&& i32::MIN <= mouse_pos.y + top_y <= i32::MAX
    &&& i32::MIN <= mouse_pos.x * 4 <= i32::MAX
    &&& i32::MIN <= mouse_pos.y * 4 <= i32::MAX
}

/// The tooltips for the entities under the mouse. The mouse points at the
/// map cell that lies at its position, counted from the camera's upper left
/// corner (`left_x`, `top_y`). The texts are shown on a grid four times as
/// fine as the map's.
pub fn tooltips(mouse_pos: &Point, left_x: i32, top_y: i32, named: &Vec<Named>) -> (tips: Vec<
    Tooltip,
>)
    requires
        in_view(*mouse_pos, left_x, top_y),
    ensures
        tips@.len() == pointed_at(
            named@,
            Point { x: (mouse_pos.x + left_x) as i32, y: (mouse_pos.y + top_y) as i32 },
        ).len(),
        forall|k: int|
            0 <= k < tips@.len() ==> (#[trigger] tips@[k]).at == (Point {
                x: (mouse_pos.x * 4) as i32,
                y: (mouse_pos.y * 4) as i32,
            }) && tips@[k].text@ == tooltip_text(
                pointed_at(
                    named@,
                    Point { x: (mouse_pos.x + left_x) as i32, y: (mouse_pos.y + top_y) as i32 },
                )[k],
            ),
{
    let map_pos = Point { x: mouse_pos.x + left_x, y: mouse_pos.y + top_y };
    let screen_pos = Point { x: mouse_pos.x * 4, y: mouse_pos.y * 4 };
    let mut tips: Vec<Tooltip> = Vec::new();
    let mut i: usize = 0;
    while i < named.len()
        invariant
            i <= named@.len(),
            tips@.len() == pointed_at(named@.take(i as int), map_pos).len(),
            forall|k: int|
                0 <= k < tips@.len() ==> (#[trigger] tips@[k]).at == screen_pos && tips@[k].text@
                    == tooltip_text(pointed_at(named@.take(i as int), map_pos)[k]),
        decreases named@.len() - i,
    {
        assert(named@.take(i + 1).drop_last() =~= named@.take(i as int));
        let ghost before = tips@;
        if named[i].pos.x == map_pos.x && named[i].pos.y == map_pos.y {
            let text = match named[i].health {
                Some(hp) => format_label(&named[i].name, hp),
                None => named[i].name.clone(),
            };
            tips.push(Tooltip { at: screen_pos, text });
            assert forall|k: int| 0 <= k < tips@.len() implies (#[trigger] tips@[k]).at
                == screen_pos && tips@[k].text@ == tooltip_text(
                pointed_at(named@.take(i + 1), map_pos)[k],
            ) by {
                if k < before.len() {
                    assert(tips@[k] == before[k]);
                }
            }
        }
        i += 1;
    }
    assert(named@.take(i as int) =~= named@);
    tips
}

} // verus!
