use vstd::prelude::*;
use crate::color::Color;
use crate::config::MSG_HEIGHT;

verus! {

/// The message log: text and color of each line, oldest first.
pub type Messages = Vec<(String, Color)>;

/// The log as text and color pairs.
pub open spec fn log_view(m: Seq<(String, Color)>) -> Seq<(Seq<char>, Color)> {
    m.map_values(|e: (String, Color)| (e.0@, e.1))
}

/// The log after adding one line: it keeps only the last `MSG_HEIGHT` lines.
pub open spec fn log_add(l: Seq<(Seq<char>, Color)>, text: Seq<char>, color: Color) -> Seq<(Seq<char>, Color)> {
    let s = l.push((text, color));
    if s.len() > MSG_HEIGHT {
        s.subrange(s.len() - MSG_HEIGHT, s.len() as int)
    } else {
        s
    }
}

/// Appends a line to the log, dropping the oldest lines beyond capacity.
pub fn message(messages: &mut Messages, text: String, color: Color)
    ensures
        log_view(final(messages)@) == log_add(log_view(old(messages)@), text@, color),
{
    let ghost t = text@;
    let ghost all = log_view(messages@).push((t, color));
    messages.push((text, color));
    assert(log_view(messages@) =~= all);
    while messages.len() > MSG_HEIGHT
        invariant
            messages.len() <= all.len(),
            all.len() > MSG_HEIGHT ==> messages.len() >= MSG_HEIGHT,
            all.len() <= MSG_HEIGHT ==> messages.len() == all.len(),
            log_view(messages@) =~= all.subrange(all.len() - messages.len(), all.len() as int),
        decreases messages.len(),
    {
        let ghost before = messages@;
        messages.remove(0);
        assert(log_view(messages@) =~= log_view(before).subrange(1, before.len() as int));
    }
}


/// Something that keeps game messages.
pub trait MessageLog: Sized {
    /// The lines kept, oldest first.
    spec fn lines(&self) -> Seq<(Seq<char>, Color)>;

    /// Adds a line; the oldest lines beyond capacity are dropped.
    fn add(&mut self, text: String, color: Color)
        ensures
            final(self).lines() == log_add(old(self).lines(), text@, color),
    ;
}

impl MessageLog for Messages {
    open spec fn lines(&self) -> Seq<(Seq<char>, Color)> {
        log_view(self@)
    }

    fn add(&mut self, text: String, color: Color) {
        message(self, text, color);
    }
}

} // verus!
