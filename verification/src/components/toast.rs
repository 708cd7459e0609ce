//! A short message that goes away by itself.

use vstd::prelude::*;

verus! {

/// How long a message stays, in milliseconds.
pub const TOAST_TIME: u64 = 2000;

/// A message that goes away by itself. Each message starts a timer; only the latest timer hides.
#[derive(Debug)]
pub struct Toast {
    pub message: String,
    pub visible: bool,
    /// The timer that runs, if any.
    pub timer: Option<u64>,
    pub next_timer: u64,
}

impl Toast {
    /// No timer is given out twice while there are numbers left.
    pub open spec fn wf(&self) -> bool {
        self.timer matches Some(t) ==> t < self.next_timer
    }

    /// The toast with another message and its timer.
    pub open spec fn showing(self, message: String) -> Toast {
        Toast {
            message,
            visible: true,
            timer: Some(self.next_timer),
            next_timer: (self.next_timer + 1) as u64,
        }
    }

    /// The toast after a timer ran out.
    pub open spec fn after_timer(self, timer: u64) -> Toast {
        if self.timer == Some(timer) {
            Toast { visible: false, timer: None, ..self }
        } else {
            self
        }
    }

    pub fn new() -> (t: Self)
        ensures
            t.wf(),
            t.message@ == Seq::<char>::empty(),
            !t.visible,
            t.timer is None,
            t.next_timer == 0,
    {
        Toast { message: String::new(), visible: false, timer: None, next_timer: 0 }
    }

    /// Shows a message in place of any other, and returns the timer to start for it.
    pub fn show(&mut self, message: String) -> (timer: u64)
        requires
            old(self).wf(),
            old(self).next_timer < u64::MAX,
        ensures
            final(self).wf(),
            timer == old(self).next_timer,
            *final(self) == old(self).showing(message),
    {
        let timer: u64 = self.next_timer;
        self.message = message;
        self.visible = true;
        self.timer = Some(timer);
        self.next_timer = timer + 1;
        timer
    }

    /// A timer ran out. Only that of the message on show hides it.
    pub fn timer_fired(&mut self, timer: u64) -> (hidden: bool)
        requires
            old(self).wf(),
        ensures
            final(self).wf(),
            hidden == (old(self).timer == Some(timer)),
            *final(self) == old(self).after_timer(timer),
    {
        match self.timer {
            Some(t) => {
                if t == timer {
                    self.visible = false;
                    self.timer = None;
                    return true;
                }
            },
            None => {},
        }
        false
    }

    /// The message that is on show.
    pub fn shown(&self) -> (r: Option<&str>)
        ensures
            match r {
                Some(s) => self.visible && s@ == self.message@,
                None => !self.visible,
            },
    {
        if self.visible {
            Some(self.message.as_str())
        } else {
            None
        }
    }
}

/// The timer of an earlier message does not hide a later one; its own timer does.
pub proof fn law_only_latest_timer_hides(toast: Toast, earlier: u64, message: String)
    requires
        toast.wf(),
        earlier < toast.next_timer < u64::MAX,
    ensures
        toast.showing(message).after_timer(earlier) == toast.showing(message),
        !toast.showing(message).after_timer(toast.next_timer).visible,
{
}

/// A message is on show as soon as it is given, under a timer that no message had before.
pub proof fn law_message_is_on_show(toast: Toast, message: String, next: String)
    requires
        toast.wf(),
        toast.next_timer < u64::MAX,
    ensures
        toast.showing(message).visible,
        toast.showing(message).message == message,
        toast.showing(message).timer is Some,
        toast.showing(message).timer != toast.timer,
        toast.showing(message).wf(),
        toast.showing(message).next_timer < u64::MAX ==> toast.showing(message).showing(next).timer
            != toast.showing(message).timer,
{
}

} // verus!
