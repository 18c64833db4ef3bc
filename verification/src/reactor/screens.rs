//! The active screen, drags, and the end of an event.
use vstd::prelude::*;

use crate::effects::{views, Effect, EffectView};
use crate::ids::WindowId;
use crate::reactor_model::ReactorView;
use super::Reactor;

verus! {

impl Reactor {
    /// Makes the screen of the main window the active one.
    pub fn update_active_screen(&mut self) -> (effects: Vec<Effect>)
        requires
            old(self).wf(),
        ensures
            final(self).wf(),
            final(self)@ == old(self)@.activating_screen().state,
            views(effects@) == old(self)@.activating_screen().effects,
    {
        let ghost v = self@;
        let mut effects: Vec<Effect> = Vec::new();
        let screen = match self.main_window {
            Some(wid) => match self.windows.get(wid) {
                Some(window) => self.best_screen_idx_for_window(&window.frame_monotonic),
                None => None,
            },
            None => None,
        };
        match screen {
            Some(screen) => {
                let active: u16 = screen as u16;
                let changed = match self.active_screen_idx {
                    Some(before) => before != active,
                    None => true,
                };
                self.active_screen_idx = Some(active);
                if changed {
                    effects.push(Effect::FocusedScreenChanged);
                }
            },
            None => {},
        }
        proof {
            assert(views(effects@) =~= v.activating_screen().effects);
        }
        effects
    }

    /// The mouse has begun to drag an edge or a window of the layout.
    pub fn begin_drag(&mut self)
        requires
            old(self).wf(),
        ensures
            final(self).wf(),
            final(self)@ == (ReactorView { in_drag: true, ..old(self)@ }),
    {
        self.in_drag = true;
    }

    /// The layout has moved what is dragged: it resized something, or moved a
    /// window. A resize is followed at once, a move is animated.
    pub fn dragged(resized: bool, moved: bool) -> (effects: Vec<Effect>)
        ensures
            views(effects@) == (if resized {
                seq![EffectView::UpdateLayout { new_wids: Seq::empty(), skip_anim: true }]
            } else if moved {
                seq![EffectView::UpdateLayout { new_wids: Seq::empty(), skip_anim: false }]
            } else {
                Seq::empty()
            }),
    {
        let mut effects: Vec<Effect> = Vec::new();
        if resized {
            effects.push(Effect::UpdateLayout { new_wids: Vec::new(), skip_anim: true });
        } else if moved {
            effects.push(Effect::UpdateLayout { new_wids: Vec::new(), skip_anim: false });
        }
        proof {
            if resized {
                assert(views(effects@) =~= seq![
                    EffectView::UpdateLayout { new_wids: Seq::empty(), skip_anim: true },
                ]);
            } else if moved {
                assert(views(effects@) =~= seq![
                    EffectView::UpdateLayout { new_wids: Seq::empty(), skip_anim: false },
                ]);
            } else {
                assert(views(effects@) =~= Seq::empty());
            }
        }
        effects
    }

    /// Ends an event: tells the layout of a raised window, and updates the
    /// layout unless something is being dragged.
    pub fn finish_event(
        &self,
        raised_window: Option<WindowId>,
        new_wids: Vec<WindowId>,
        is_resize: bool,
    ) -> (effects: Vec<Effect>)
        ensures
            views(effects@) == self@.finishing(raised_window, new_wids@, is_resize),
    {
        let mut effects: Vec<Effect> = Vec::new();
        match raised_window {
            Some(wid) => {
                effects.push(self.focused_effect(wid));
                effects.push(Effect::UpdateActiveScreen);
            },
            None => {},
        }
        if !self.in_drag {
            effects.push(Effect::UpdateLayout { new_wids, skip_anim: is_resize });
        }
        proof {
            assert(views(effects@) =~= self@.finishing(raised_window, new_wids@, is_resize));
        }
        effects
    }
}

} // verus!
