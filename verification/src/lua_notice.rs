//! What goes wrong in Lua code, for whoever wants to know.
//!
//! A broken pass fails its region and a broken hook answers nothing; what was
//! wrong with them is told to a [`LuaWatch`].

use crate::decimal::push_decimal;
use crate::lua_pass::LuaPassError;
use crate::lua_table::LuaKind;
use std::sync::Arc;
use vstd::prelude::*;

verus! {

/// The words of mlua's `Error`, by its `Display`. They are mlua's own, so
/// nothing is claimed of them; contracts speak of them as what this call
/// returns.
#[verifier::external_body]
pub(crate) fn lua_message(error: &mlua::Error) -> (message: String) {
    error.to_string()
}

/// `words` may be what mlua says of `error`.
pub closed spec fn may_say(error: mlua::Error, words: Seq<char>) -> bool {
    exists|message: String| #[trigger]
        call_ensures(lua_message, (&error,), message) && message@ == words
}

/// What mlua says of `error`.
pub(crate) fn words_of(error: &mlua::Error) -> (words: String)
    ensures
        may_say(*error, words@),
{
    let words = lua_message(error);
    assert(call_ensures(lua_message, (error,), words));
    words
}

/// What went wrong in Lua code.
#[derive(Debug)]
pub enum LuaNotice {
    /// A pass returned a table without `expand`; its region fails.
    NoChildren {
        /// The round of the pass.
        index: usize,
    },
    /// A pass returned something else than it should; its region fails.
    WrongReply {
        /// The round of the pass.
        index: usize,
        /// What it returned.
        kind: LuaKind,
    },
    /// A pass gave no outcome; its region fails.
    PassFailed {
        /// The round of the pass.
        index: usize,
        /// Why.
        error: LuaPassError,
    },
    /// The function `symbols` failed; there is no outline.
    SymbolsFailed {
        /// Why.
        error: mlua::Error,
    },
}

impl LuaNotice {
    /// `message` may be the message for a human reader.
    pub open spec fn may_read(self, message: Seq<char>) -> bool {
        match self {
            LuaNotice::NoChildren { index } => message == "pass #"@ + crate::decimal::decimal(index as nat)
                + " returned a table without `expand`; treating as failed"@,
            LuaNotice::WrongReply { index, kind } => message == "pass #"@ + crate::decimal::decimal(index as nat)
                + " returned "@ + kind.label() + "; treating as failed"@,
            LuaNotice::PassFailed { index, error } => exists|words: Seq<char>| #[trigger]
                error.may_read(words) && message == "pass #"@ + crate::decimal::decimal(index as nat) + " error: "@
                    + words,
            LuaNotice::SymbolsFailed { error } => exists|words: Seq<char>| #[trigger]
                may_say(error, words) && message == "symbols error: "@ + words,
        }
    }

    /// The message for a human reader.
    pub fn message(&self) -> (message: String)
        ensures
            self.may_read(message@),
    {
        let mut out = String::new();
        match self {
            LuaNotice::NoChildren { index } => {
                out.append("pass #");
                push_decimal(&mut out, *index as u64);
                out.append(" returned a table without `expand`; treating as failed");
                assert(out@ =~= "pass #"@ + crate::decimal::decimal(*index as nat)
                    + " returned a table without `expand`; treating as failed"@);
            },
            LuaNotice::WrongReply { index, kind } => {
                out.append("pass #");
                push_decimal(&mut out, *index as u64);
                out.append(" returned ");
                out.append(kind.name());
                out.append("; treating as failed");
                assert(out@ =~= "pass #"@ + crate::decimal::decimal(*index as nat) + " returned "@ + kind.label()
                    + "; treating as failed"@);
            },
            LuaNotice::PassFailed { index, error } => {
                let words = error.message();
                out.append("pass #");
                push_decimal(&mut out, *index as u64);
                out.append(" error: ");
                out.append(words.as_str());
                assert(error.may_read(words@));
                assert(out@ =~= "pass #"@ + crate::decimal::decimal(*index as nat) + " error: "@ + words@);
            },
            LuaNotice::SymbolsFailed { error } => {
                let words = words_of(error);
                out.append("symbols error: ");
                out.append(words.as_str());
                assert(may_say(*error, words@));
                assert(out@ =~= "symbols error: "@ + words@);
            },
        }
        out
    }
}

/// A closure that is told of what goes wrong.
///
/// Every such closure is one; write closures rather than implementing this
/// trait.
pub trait NoticeHook: Send + Sync {
    /// The notices that [`hear`](NoticeHook::hear) may be called with.
    spec fn hears(&self, notice: &LuaNotice) -> bool;

    /// The closure was called with `notice`.
    spec fn heard(&self, notice: &LuaNotice) -> bool;

    /// Calls the closure.
    fn hear(&self, notice: &LuaNotice)
        requires
            self.hears(notice),
        ensures
            self.heard(notice),
    ;
}

impl<F> NoticeHook for F where F: Fn(&LuaNotice) + Send + Sync {
    open spec fn hears(&self, notice: &LuaNotice) -> bool {
        call_requires(*self, (notice,))
    }

    open spec fn heard(&self, notice: &LuaNotice) -> bool {
        call_ensures(*self, (notice,), ())
    }

    fn hear(&self, notice: &LuaNotice) {
        self(notice)
    }
}

/// A boxed closure that is told of what goes wrong.
struct NoticeFn {
    hook: Box<dyn NoticeHook>,
}

impl NoticeFn {
    /// The closure takes every notice.
    #[verifier::type_invariant]
    spec fn total(&self) -> bool {
        forall|notice: &LuaNotice| #[trigger] self.hook.hears(notice)
    }

    /// The closure was called with `notice`.
    closed spec fn told(&self, notice: &LuaNotice) -> bool {
        self.hook.heard(notice)
    }

    /// Calls the closure.
    fn tell(&self, notice: &LuaNotice)
        ensures
            self.told(notice),
    {
        proof {
            use_type_invariant(self);
        }
        self.hook.hear(notice)
    }
}

/// Who is told of what goes wrong in Lua code, if anybody.
pub struct LuaWatch {
    watcher: Option<Arc<NoticeFn>>,
}

impl LuaWatch {
    /// `notice` was told.
    pub closed spec fn told(&self, notice: &LuaNotice) -> bool {
        match self.watcher {
            Some(watcher) => watcher.told(notice),
            None => true,
        }
    }

    /// Telling it comes to calling `f`.
    pub open spec fn calls<F: Fn(&LuaNotice)>(&self, f: &F) -> bool {
        forall|notice: &LuaNotice| #[trigger]
            self.told(notice) == call_ensures(*f, (notice,), ())
    }

    /// Nobody is told.
    pub open spec fn is_silent(&self) -> bool {
        forall|notice: &LuaNotice| #[trigger] self.told(notice)
    }

    /// Tells `f`.
    pub fn new<F: Fn(&LuaNotice) + Send + Sync + 'static>(f: F) -> (watch: Self)
        requires
            forall|notice: &LuaNotice| #[trigger] call_requires(f, (notice,)),
        ensures
            watch.calls(&f),
    {
        let ghost given = f;
        let watcher = NoticeFn { hook: Box::new(f) };
        let watch = LuaWatch { watcher: Some(Arc::new(watcher)) };
        assert(watch.calls(&given));
        watch
    }

    /// Tells nobody.
    pub fn silent() -> (watch: Self)
        ensures
            watch.is_silent(),
    {
        LuaWatch { watcher: None }
    }

    /// Tells `notice`.
    pub fn tell(&self, notice: &LuaNotice)
        ensures
            self.told(notice),
    {
        if let Some(watcher) = &self.watcher {
            watcher.tell(notice);
        }
    }
}

impl Clone for LuaWatch {
    /// Another handle to the same watcher.
    fn clone(&self) -> (watch: Self)
        ensures
            watch == *self,
    {
        let watcher = match &self.watcher {
            Some(watcher) => Some(watcher.clone()),
            None => None,
        };
        LuaWatch { watcher }
    }
}

/// A notice says which pass it is about and what it did.
pub proof fn law_notices_in_words(notice: LuaNotice, message: Seq<char>)
    requires
        notice.may_read(message),
    ensures
        match notice {
            LuaNotice::NoChildren { index } => message == "pass #"@ + crate::decimal::decimal(
                index as nat,
            ) + " returned a table without `expand`; treating as failed"@,
            LuaNotice::WrongReply { index, kind } => message == "pass #"@ + crate::decimal::decimal(
                index as nat,
            ) + " returned "@ + kind.label() + "; treating as failed"@,
            LuaNotice::PassFailed { index, error } => exists|words: Seq<char>| #[trigger]
                error.may_read(words) && message == "pass #"@ + crate::decimal::decimal(
                    index as nat,
                ) + " error: "@ + words,
            LuaNotice::SymbolsFailed { error } => exists|words: Seq<char>| #[trigger]
                may_say(error, words) && message == "symbols error: "@ + words,
        },
{
}

} // verus!
