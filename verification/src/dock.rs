//! Panels at an edge of the window, and tabbed panes.
//!
//! Panels and items are known by values of the caller's own; so are sizes and ratios.

use vstd::prelude::*;

verus! {

/// An edge of the window.
#[derive(Clone, Copy, Debug, PartialEq, Eq, Structural)]
pub enum DockPosition {
    Left,
    Right,
    Bottom,
}

/// What a panel tells its dock.
#[derive(Clone, Copy, Debug)]
pub enum PanelEvent {
    Activate,
    Deactivate,
    ChangePosition(DockPosition),
}

/// Which of the events stands for a panel being made active, or not.
pub fn activation_event(active: bool) -> (event: PanelEvent)
    ensures
        event == (if active {
            PanelEvent::Activate
        } else {
            PanelEvent::Deactivate
        }),
{
    if active {
        PanelEvent::Activate
    } else {
        PanelEvent::Deactivate
    }
}

/// The panels at one edge, with the one that shows.
#[derive(Debug)]
pub struct Dock<P, S: Copy> {
    pub position: DockPosition,
    pub panels: Vec<P>,
    pub active_panel: Option<usize>,
    pub size: S,
    pub visible: bool,
}

impl<P, S: Copy> Dock<P, S> {
    /// The active panel is one of the panels, and there is one as soon as there are panels.
    pub open spec fn wf(&self) -> bool {
        match self.active_panel {
            Some(i) => i < self.panels@.len(),
            None => self.panels@.len() == 0,
        }
    }

    pub fn new(position: DockPosition, size: S) -> (d: Self)
        ensures
            d.wf(),
            d.position == position,
            d.panels@.len() == 0,
            d.active_panel is None,
            d.size == size,
            !d.visible,
    {
        Dock { position, panels: Vec::new(), active_panel: None, size, visible: false }
    }

    pub fn position(&self) -> (p: DockPosition)
        ensures
            p == self.position,
    {
        self.position
    }

    /// Adds a panel; the first one becomes active.
    pub fn add_panel(&mut self, panel: P)
        requires
            old(self).wf(),
        ensures
            final(self).wf(),
            final(self).panels@ == old(self).panels@.push(panel),
            final(self).active_panel == (match old(self).active_panel {
                Some(i) => Some(i),
                None => Some(old(self).panels@.len() as usize),
            }),
            *final(self) == (Dock {
                panels: final(self).panels,
                active_panel: final(self).active_panel,
                ..*old(self)
            }),
    {
        if self.active_panel.is_none() {
            self.active_panel = Some(self.panels.len());
        }
        self.panels.push(panel);
    }

    pub fn active_panel(&self) -> (r: Option<&P>)
        requires
            self.wf(),
        ensures
            match r {
                Some(p) => self.active_panel matches Some(i) && *p == self.panels@[i as int],
                None => self.panels@.len() == 0,
            },
    {
        match self.active_panel {
            Some(i) => Some(&self.panels[i]),
            None => None,
        }
    }

    /// What a panel says: being active shows the dock, being inactive hides it.
    pub fn on_event(&mut self, event: PanelEvent)
        ensures
            *final(self) == (Dock {
                visible: match event {
                    PanelEvent::Activate => true,
                    PanelEvent::Deactivate => false,
                    PanelEvent::ChangePosition(_) => old(self).visible,
                },
                ..*old(self)
            }),
    {
        match event {
            PanelEvent::Activate => {
                self.visible = true;
            },
            PanelEvent::Deactivate => {
                self.visible = false;
            },
            PanelEvent::ChangePosition(_) => {},
        }
    }

    pub fn set_size(&mut self, size: S)
        ensures
            *final(self) == (Dock { size, ..*old(self) }),
    {
        self.size = size;
    }

    pub fn size(&self) -> (s: S)
        ensures
            s == self.size,
    {
        self.size
    }

    pub fn toggle(&mut self)
        ensures
            *final(self) == (Dock { visible: !old(self).visible, ..*old(self) }),
    {
        self.visible = !self.visible;
    }

    pub fn show(&mut self)
        ensures
            *final(self) == (Dock { visible: true, ..*old(self) }),
    {
        self.visible = true;
    }

    pub fn dismiss(&mut self)
        ensures
            *final(self) == (Dock { visible: false, ..*old(self) }),
    {
        self.visible = false;
    }
}

/// What an item of a pane tells its pane.
#[derive(Debug)]
pub enum TabItemEvent {
    UpdateLabel(String),
    Close,
    Ready,
}

/// Items under tabs, each known by a number, with the one that shows.
#[derive(Debug)]
pub struct Pane {
    pub items: Vec<u64>,
    pub active_item: usize,
}

/// The items without one of them.
pub open spec fn without(items: Seq<u64>, id: u64) -> Seq<u64> {
    items.filter(|i: u64| i != id)
}

impl Pane {
    /// The active item is one of the items, where there are any.
    pub open spec fn wf(&self) -> bool {
        self.items@.len() > 0 ==> self.active_item < self.items@.len()
    }

    pub fn new() -> (p: Self)
        ensures
            p.wf(),
            p.items@.len() == 0,
            p.active_item == 0,
    {
        Pane { items: Vec::new(), active_item: 0 }
    }

    /// Adds an item and makes it active.
    pub fn add_item(&mut self, item: u64)
        ensures
            final(self).wf(),
            final(self).items@ == old(self).items@.push(item),
            final(self).active_item == old(self).items@.len(),
    {
        self.items.push(item);
        self.active_item = self.items.len() - 1;
    }

    /// Takes an item out. The place of the active one stays, or becomes the last.
    pub fn remove_item(&mut self, id: u64)
        requires
            old(self).wf(),
        ensures
            final(self).wf(),
            final(self).items@ == without(old(self).items@, id),
            final(self).active_item == (if old(self).active_item >= final(self).items@.len()
                && final(self).items@.len() > 0 {
                final(self).items@.len() - 1
            } else {
                old(self).active_item as int
            }),
    {
        let mut kept: Vec<u64> = Vec::new();
        let mut i: usize = 0;
        let ghost all = self.items@;
        assert(all.take(0) =~= Seq::<u64>::empty());
        proof {
            reveal(Seq::filter);
        }
        while i < self.items.len()
            invariant
                i <= self.items@.len(),
                self.items@ == all,
                kept@ == without(all.take(i as int), id),
            decreases self.items@.len() - i,
        {
            proof {
                reveal(Seq::filter);
                assert(all.take(i + 1).drop_last() =~= all.take(i as int));
                assert(all.take(i + 1).last() == all[i as int]);
            }
            if self.items[i] != id {
                kept.push(self.items[i]);
            }
            i += 1;
        }
        assert(all.take(i as int) =~= all);
        self.items = kept;
        if self.active_item >= self.items.len() && self.items.len() > 0 {
            self.active_item = self.items.len() - 1;
        }
    }

    /// Makes an item active, where there is one at that place.
    pub fn activate_item(&mut self, index: usize)
        ensures
            *final(self) == (if index < old(self).items@.len() {
                Pane { active_item: index, ..*old(self) }
            } else {
                *old(self)
            }),
    {
        if index < self.items.len() {
            self.active_item = index;
        }
    }

    pub fn active_item(&self) -> (r: Option<u64>)
        ensures
            r == (if self.active_item < self.items@.len() {
                Some(self.items@[self.active_item as int])
            } else {
                None
            }),
    {
        if self.active_item < self.items.len() {
            Some(self.items[self.active_item])
        } else {
            None
        }
    }

    pub fn items(&self) -> (r: &Vec<u64>)
        ensures
            *r == self.items,
    {
        &self.items
    }

    pub fn active_index(&self) -> (n: usize)
        ensures
            n == self.active_item,
    {
        self.active_item
    }

    pub fn len(&self) -> (n: usize)
        ensures
            n == self.items@.len(),
    {
        self.items.len()
    }

    pub fn is_empty(&self) -> (r: bool)
        ensures
            r == (self.items@.len() == 0),
    {
        self.items.len() == 0
    }
}

/// The direction of a split.
#[derive(Clone, Copy, Debug, PartialEq, Eq)]
pub enum Axis {
    Vertical,
    Horizontal,
}

/// Panes side by side.
#[derive(Debug)]
pub enum PaneLayout<R> {
    Single(Pane),
    Split {
        axis: Axis,
        first: Box<PaneLayout<R>>,
        second: Box<PaneLayout<R>>,
        ratio: R,
    },
}

impl<R> PaneLayout<R> {
    /// One empty pane.
    pub fn single() -> (l: Self)
        ensures
            l matches PaneLayout::Single(p) && p.items@.len() == 0 && p.active_item == 0,
    {
        PaneLayout::Single(Pane::new())
    }

    pub fn split(axis: Axis, first: PaneLayout<R>, second: PaneLayout<R>, ratio: R) -> (l: Self)
        ensures
            l == (PaneLayout::Split { axis, first: Box::new(first), second: Box::new(second), ratio }),
    {
        PaneLayout::Split { axis, first: Box::new(first), second: Box::new(second), ratio }
    }
}

/// An item that was taken out of a pane is not in it any more, and the others stay in order.
pub proof fn law_removed_item_is_gone(items: Seq<u64>, id: u64)
    ensures
        !without(items, id).contains(id),
        forall|i: u64| i != id ==> (items.contains(i) <==> #[trigger] without(items, id).contains(i)),
    decreases items.len(),
{
    reveal(Seq::filter);
    if items.len() > 0 {
        law_removed_item_is_gone(items.drop_last(), id);
        let rest = without(items.drop_last(), id);
        assert(items =~= items.drop_last().push(items.last()));
        assert forall|i: u64| i != id implies (items.contains(i) <==> #[trigger] without(
            items,
            id,
        ).contains(i)) by {
            assert(items.drop_last().contains(i) <==> rest.contains(i));
            if items.contains(i) {
                let k = choose|k: int| 0 <= k < items.len() && items[k] == i;
                if k < items.len() - 1 {
                    assert(items.drop_last()[k] == i);
                    let j = choose|j: int| 0 <= j < rest.len() && rest[j] == i;
                    assert(without(items, id)[j] == i);
                } else {
                    assert(without(items, id)[rest.len() as int] == i);
                }
            }
            if without(items, id).contains(i) {
                let k = choose|k: int|
                    0 <= k < without(items, id).len() && without(items, id)[k] == i;
                if k < rest.len() {
                    assert(rest[k] == i);
                    let j = choose|j: int|
                        0 <= j < items.drop_last().len() && items.drop_last()[j] == i;
                    assert(items[j] == i);
                } else {
                    assert(items[items.len() - 1] == i);
                }
            }
        }
    }
}

} // verus!
