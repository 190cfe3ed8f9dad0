use vstd::prelude::*;

verus! {

/// How important a log message is, from the most to the least.
#[derive(Debug, Copy, Clone, PartialEq, Eq, Structural)]
pub enum Level {
    Error,
    Warn,
    Info,
    Debug,
    Trace,
}

/// The rank of a level: errors first.
pub open spec fn level_rank(l: Level) -> nat {
    match l {
        Level::Error => 1,
        Level::Warn => 2,
        Level::Info => 3,
        Level::Debug => 4,
        Level::Trace => 5,
    }
}

/// The colors that titles are written in.
#[derive(Debug, Copy, Clone, PartialEq, Eq, Structural)]
pub enum TitleColor {
    Green,
    Blue,
    Cyan,
    Yellow,
    Red,
}

impl Level {
    pub fn rank(&self) -> (r: u8)
        ensures
            r == level_rank(*self),
    {
        match self {
            Level::Error => 1,
            Level::Warn => 2,
            Level::Info => 3,
            Level::Debug => 4,
            Level::Trace => 5,
        }
    }

    /// The color and the title that a message of this level is shown with.
    pub fn style(&self) -> (r: (TitleColor, &'static str))
        ensures
            r == match *self {
                Level::Debug => (TitleColor::Green, "debug"),
                Level::Trace => (TitleColor::Blue, "trace"),
                Level::Info => (TitleColor::Cyan, " info"),
                Level::Warn => (TitleColor::Yellow, " warn"),
                Level::Error => (TitleColor::Red, "error"),
            },
    {
        match self {
            Level::Debug => (TitleColor::Green, "debug"),
            Level::Trace => (TitleColor::Blue, "trace"),
            Level::Info => (TitleColor::Cyan, " info"),
            Level::Warn => (TitleColor::Yellow, " warn"),
            Level::Error => (TitleColor::Red, "error"),
        }
    }
}

/// Whether `s` starts with `prefix`.
pub fn starts_with(s: &[u8], prefix: &[u8]) -> (r: bool)
    ensures
        r == (prefix@.len() <= s@.len() && s@.take(prefix@.len() as int) == prefix@),
{
    if prefix.len() > s.len() {
        return false;
    }
    let mut i: usize = 0;
    while i < prefix.len()
        invariant
            i <= prefix@.len() <= s@.len(),
            forall|j: int| 0 <= j < i ==> s@[j] == prefix@[j],
        decreases prefix@.len() - i,
    {
        if s[i] != prefix[i] {
            assert(s@.take(prefix@.len() as int)[i as int] != prefix@[i as int]);
            return false;
        }
        i = i + 1;
    }
    assert(s@.take(prefix@.len() as int) =~= prefix@);
    true
}

/// The module path prefixes whose messages are shown.
pub open spec fn logged_module(path: Seq<u8>) -> bool {
    let a = seq![115u8, 99u8, 105u8, 102u8, 105u8, 119u8, 101u8, 98u8, 58u8, 58u8];
    let b = seq![115u8, 102u8, 95u8];
    ||| (a.len() <= path.len() && path.take(a.len() as int) == a)
    ||| (b.len() <= path.len() && path.take(b.len() as int) == b)
}

/// Whether messages from the module at `path` are shown: those of the
/// project's own modules, `scifiweb::...` and `sf_...`.
pub fn is_logged_module(path: &[u8]) -> (r: bool)
    ensures
        r == logged_module(path@),
{
    let a: [u8; 10] = [115u8, 99u8, 105u8, 102u8, 105u8, 119u8, 101u8, 98u8, 58u8, 58u8];
    let b: [u8; 3] = [115u8, 102u8, 95u8];
    assert(a@ =~= seq![115u8, 99u8, 105u8, 102u8, 105u8, 119u8, 101u8, 98u8, 58u8, 58u8]);
    assert(b@ =~= seq![115u8, 102u8, 95u8]);
    starts_with(path, &a) || starts_with(path, &b)
}

/// Whether a message is shown: its level is within the maximum, given as a
/// rank (0 shows nothing), and it comes from a logged module.
pub fn should_log(max_rank: u8, level: Level, path: &[u8]) -> (r: bool)
    ensures
        r == (level_rank(level) <= max_rank && logged_module(path@)),
{
    level.rank() <= max_rank && is_logged_module(path)
}

} // verus!
