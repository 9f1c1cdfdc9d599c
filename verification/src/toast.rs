//! Toast notifications: the queue of pending messages and the decision of
//! which one shows next. Showing a message and the timers that hide it are
//! the window's part; it hands each event to `ToastOverlay` and displays
//! what comes back.

use vstd::prelude::*;

verus! {

/// How long a toast stays up unless told otherwise, in milliseconds.
pub const DEFAULT_TOAST_DURATION_MS: u32 = 3000;

/// How many toasts wait at most; a new one beyond that drops the oldest.
pub const MAX_QUEUED_TOASTS: usize = 5;

/// The kind of a toast, which decides its styling.
#[derive(Debug, Clone, Copy, PartialEq, Eq, Structural)]
pub enum ToastType {
    /// Informational message (default)
    Info,
    /// Success message (green tint)
    Success,
    /// Warning message (yellow tint)
    Warning,
    /// Error message (red tint)
    Error,
}

/// The style class of a toast kind.
pub open spec fn toast_css_class(t: ToastType) -> Seq<char> {
    match t {
        ToastType::Info => "toast-info"@,
        ToastType::Success => "toast-success"@,
        ToastType::Warning => "toast-warning"@,
        ToastType::Error => "toast-error"@,
    }
}

impl ToastType {
    /// Returns the CSS class for this toast type.
    pub fn css_class(&self) -> (c: &'static str)
        ensures
            c@ == toast_css_class(*self),
    {
        match self {
            ToastType::Info => "toast-info",
            ToastType::Success => "toast-success",
            ToastType::Warning => "toast-warning",
            ToastType::Error => "toast-error",
        }
    }
}

/// A toast waiting to be shown.
#[derive(Debug, Clone)]
pub struct QueuedToast {
    /// The text shown
    pub message: String,
    /// Its kind
    pub toast_type: ToastType,
    /// How long it stays up, in milliseconds
    pub duration_ms: u32,
}

/// A toast as the contracts see it: text, kind and duration.
pub open spec fn toast_view(t: QueuedToast) -> (Seq<char>, ToastType, u32) {
    (t.message@, t.toast_type, t.duration_ms)
}

/// The views of a queue of toasts.
pub open spec fn toast_views(q: Seq<QueuedToast>) -> Seq<(Seq<char>, ToastType, u32)> {
    q.map_values(|t: QueuedToast| toast_view(t))
}

/// The queue after a toast is added: the oldest leaves first when the queue
/// is full.
pub open spec fn enqueued(
    queue: Seq<(Seq<char>, ToastType, u32)>,
    toast: (Seq<char>, ToastType, u32),
) -> Seq<(Seq<char>, ToastType, u32)> {
    if queue.len() >= 5 {
        queue.drop_first().push(toast)
    } else {
        queue.push(toast)
    }
}

/// The toast state: the waiting toasts, oldest first, and whether one is up.
pub struct ToastOverlay {
    queue: Vec<QueuedToast>,
    is_showing: bool,
}

impl ToastOverlay {
    /// The waiting toasts, oldest first.
    pub closed spec fn queue_spec(&self) -> Seq<(Seq<char>, ToastType, u32)> {
        toast_views(self.queue@)
    }

    /// Whether a toast is up.
    pub closed spec fn showing_spec(&self) -> bool {
        self.is_showing
    }

    /// At most `MAX_QUEUED_TOASTS` toasts wait.
    pub open spec fn wf(&self) -> bool {
        self.queue_spec().len() <= 5
    }

    /// Creates the state with no toast up and none waiting.
    pub fn new() -> (t: Self)
        ensures
            t.wf(),
            t.queue_spec() == Seq::<(Seq<char>, ToastType, u32)>::empty(),
            !t.showing_spec(),
    {
        let t = ToastOverlay { queue: Vec::new(), is_showing: false };
        proof {
            assert(toast_views(t.queue@) =~= Seq::<(Seq<char>, ToastType, u32)>::empty());
        }
        t
    }

    /// Whether a toast is up.
    pub fn is_showing(&self) -> (b: bool)
        ensures
            b == self.showing_spec(),
    {
        self.is_showing
    }

    /// How many toasts wait.
    pub fn queued_count(&self) -> (n: usize)
        ensures
            n == self.queue_spec().len(),
    {
        self.queue.len()
    }

    /// Shows an informational toast with the default duration; returns the
    /// toast to put up now, if any (see `show_toast_with_duration`).
    pub fn show_toast(&mut self, message: &str) -> (shown: Option<QueuedToast>)
        requires
            old(self).wf(),
        ensures
            final(self).wf(),
            Self::show_effect(
                *old(self),
                *final(self),
                (message@, ToastType::Info, DEFAULT_TOAST_DURATION_MS),
                shown,
            ),
    {
        self.show_toast_with_type(message, ToastType::Info)
    }

    /// Shows a success toast with the default duration.
    pub fn show_success(&mut self, message: &str) -> (shown: Option<QueuedToast>)
        requires
            old(self).wf(),
        ensures
            final(self).wf(),
            Self::show_effect(
                *old(self),
                *final(self),
                (message@, ToastType::Success, DEFAULT_TOAST_DURATION_MS),
                shown,
            ),
    {
        self.show_toast_with_type(message, ToastType::Success)
    }

    /// Shows a warning toast with the default duration.
    pub fn show_warning(&mut self, message: &str) -> (shown: Option<QueuedToast>)
        requires
            old(self).wf(),
        ensures
            final(self).wf(),
            Self::show_effect(
                *old(self),
                *final(self),
                (message@, ToastType::Warning, DEFAULT_TOAST_DURATION_MS),
                shown,
            ),
    {
        self.show_toast_with_type(message, ToastType::Warning)
    }

    /// Shows an error toast with the default duration.
    pub fn show_error(&mut self, message: &str) -> (shown: Option<QueuedToast>)
        requires
            old(self).wf(),
        ensures
            final(self).wf(),
            Self::show_effect(
                *old(self),
                *final(self),
                (message@, ToastType::Error, DEFAULT_TOAST_DURATION_MS),
                shown,
            ),
    {
        self.show_toast_with_type(message, ToastType::Error)
    }

    /// Shows a toast of the given kind with the default duration.
    pub fn show_toast_with_type(&mut self, message: &str, toast_type: ToastType) -> (shown: Option<
        QueuedToast,
    >)
        requires
            old(self).wf(),
        ensures
            final(self).wf(),
            Self::show_effect(
                *old(self),
                *final(self),
                (message@, toast_type, DEFAULT_TOAST_DURATION_MS),
                shown,
            ),
    {
        self.show_toast_with_duration(message, toast_type, DEFAULT_TOAST_DURATION_MS)
    }

    /// What adding a toast does: it joins the queue (dropping the oldest when
    /// five wait); then, unless a toast is up, the oldest waiting one leaves
    /// the queue and is returned to be put up, and a toast is up.
    pub open spec fn show_effect(
        before: Self,
        after: Self,
        toast: (Seq<char>, ToastType, u32),
        shown: Option<QueuedToast>,
    ) -> bool {
        let q = enqueued(before.queue_spec(), toast);
        if before.showing_spec() {
            &&& shown is None
            &&& after.queue_spec() == q
            &&& after.showing_spec()
        } else {
            &&& shown is Some
            &&& toast_view(shown->0) == q[0]
            &&& after.queue_spec() == q.drop_first()
            &&& after.showing_spec()
        }
    }

    /// Shows a toast with a custom duration; returns the toast to put up now,
    /// if any.
    pub fn show_toast_with_duration(
        &mut self,
        message: &str,
        toast_type: ToastType,
        duration_ms: u32,
    ) -> (shown: Option<QueuedToast>)
        requires
            old(self).wf(),
        ensures
            final(self).wf(),
            Self::show_effect(*old(self), *final(self), (message@, toast_type, duration_ms), shown),
    {
        let toast = QueuedToast { message: message.to_string(), toast_type, duration_ms };
        let ghost before = toast_views(self.queue@);
        if self.queue.len() >= MAX_QUEUED_TOASTS {
            self.queue.remove(0);
            proof {
                assert(toast_views(self.queue@) =~= before.drop_first());
            }
        }
        let ghost mid = toast_views(self.queue@);
        self.queue.push(toast);
        proof {
            assert(toast_views(self.queue@) =~= mid.push((message@, toast_type, duration_ms)));
            assert(toast_views(self.queue@) =~= enqueued(before, (message@, toast_type, duration_ms)));
        }
        self.try_show_next()
    }

    /// Puts up the next toast unless one is up: the oldest waiting toast
    /// leaves the queue and is returned.
    pub fn try_show_next(&mut self) -> (shown: Option<QueuedToast>)
        requires
            old(self).queue_spec().len() <= 6,
        ensures
            old(self).showing_spec() ==> shown is None && *final(self) == *old(self),
            !old(self).showing_spec() && old(self).queue_spec().len() == 0 ==> shown is None
                && *final(self) == *old(self),
            !old(self).showing_spec() && old(self).queue_spec().len() > 0 ==> {
                &&& shown is Some
                &&& toast_view(shown->0) == old(self).queue_spec()[0]
                &&& final(self).queue_spec() == old(self).queue_spec().drop_first()
                &&& final(self).showing_spec()
            },
    {
        if self.is_showing {
            return None;
        }
        if self.queue.len() == 0 {
            return None;
        }
        let ghost before = toast_views(self.queue@);
        let toast = self.queue.remove(0);
        proof {
            assert(toast_views(self.queue@) =~= before.drop_first());
        }
        self.is_showing = true;
        Some(toast)
    }

    /// The hide animation of the shown toast has finished: the next waiting
    /// toast, if any, leaves the queue and is returned to be put up (a toast
    /// is then up); with none waiting, no toast is up.
    pub fn on_hide_finished(&mut self) -> (shown: Option<QueuedToast>)
        requires
            old(self).wf(),
        ensures
            final(self).wf(),
            old(self).queue_spec().len() == 0 ==> shown is None
                && final(self).queue_spec() == old(self).queue_spec()
                && !final(self).showing_spec(),
            old(self).queue_spec().len() > 0 ==> {
                &&& shown is Some
                &&& toast_view(shown->0) == old(self).queue_spec()[0]
                &&& final(self).queue_spec() == old(self).queue_spec().drop_first()
                &&& final(self).showing_spec()
            },
    {
        self.is_showing = false;
        self.try_show_next()
    }

    /// Immediately hides any showing toast.
    pub fn hide_toast(&mut self)
        ensures
            final(self).queue_spec() == old(self).queue_spec(),
            !final(self).showing_spec(),
    {
        self.is_showing = false;
    }

    /// Clears all queued toasts.
    pub fn clear_queue(&mut self)
        ensures
            final(self).queue_spec() == Seq::<(Seq<char>, ToastType, u32)>::empty(),
            final(self).showing_spec() == old(self).showing_spec(),
    {
        self.queue.clear();
        proof {
            assert(toast_views(self.queue@) =~= Seq::<(Seq<char>, ToastType, u32)>::empty());
        }
    }
}

impl Default for ToastOverlay {
    fn default() -> (t: Self)
        ensures
            t.wf(),
            t.queue_spec() == Seq::<(Seq<char>, ToastType, u32)>::empty(),
            !t.showing_spec(),
    {
        Self::new()
    }
}

/// Toasts leave the queue in the order they were added: with a toast up,
/// adding two toasts queues them behind those already waiting, in order
/// (until the queue is full).
pub proof fn toasts_wait_in_order(
    queue: Seq<(Seq<char>, ToastType, u32)>,
    a: (Seq<char>, ToastType, u32),
    b: (Seq<char>, ToastType, u32),
)
    requires
        queue.len() + 2 <= 5,
    ensures
        enqueued(enqueued(queue, a), b) == queue.push(a).push(b),
{
}

/// A full queue keeps its length: the oldest toast makes room for the new
/// one, and the new one is last.
pub proof fn full_queue_drops_oldest(
    queue: Seq<(Seq<char>, ToastType, u32)>,
    t: (Seq<char>, ToastType, u32),
)
    requires
        queue.len() == 5,
    ensures
        enqueued(queue, t).len() == 5,
        enqueued(queue, t)[0] == queue[1],
        enqueued(queue, t).last() == t,
{
}

/// CSS styles for toast notifications.
pub const TOAST_CSS: &'static str = "
.toast-container {
    background-color: alpha(@theme_bg_color, 0.95);
    border-radius: 8px;
    padding: 12px 16px;
    box-shadow: 0 2px 8px alpha(black, 0.3);
    border: 1px solid alpha(@borders, 0.5);
}

.toast-label {
    font-weight: 500;
}

.toast-info {
    border-left: 4px solid @accent_bg_color;
}

.toast-success {
    border-left: 4px solid @success_color;
    background-color: alpha(@success_bg_color, 0.95);
}

.toast-warning {
    border-left: 4px solid @warning_color;
    background-color: alpha(@warning_bg_color, 0.95);
}

.toast-error {
    border-left: 4px solid @error_color;
    background-color: alpha(@error_bg_color, 0.95);
}
";

} // verus!
