use vstd::prelude::*;

verus! {

/// Boolean-like setting which may be forced on, forced off, or left to be
/// decided by other factors.
#[derive(Debug, Clone, Copy, PartialEq, Eq, Structural, PartialOrd, Ord, Hash)]
pub enum TriState {
    /// Always true.
    Always,
    /// Never true.
    Never,
    /// Decided by other factors.
    Auto,
}

impl Default for TriState {
    fn default() -> (r: Self)
        ensures
            r == TriState::Auto,
    {
        TriState::Auto
    }
}

impl TriState {
    /// The value this setting resolves to when the other factors say `auto`.
    pub open spec fn resolve(self, auto: bool) -> bool {
        match self {
            TriState::Always => true,
            TriState::Never => false,
            TriState::Auto => auto,
        }
    }

    /// Return a bool based either on the setting or on a conditional function,
    /// which is called only when the setting is `Auto`.
    pub fn or_else(self, map_auto: impl FnOnce() -> bool) -> (r: bool)
        requires
            self == TriState::Auto ==> map_auto.requires(()),
        ensures
            self == TriState::Always ==> r,
            self == TriState::Never ==> !r,
            self == TriState::Auto ==> map_auto.ensures((), r),
    {
        match self {
            TriState::Always => true,
            TriState::Never => false,
            TriState::Auto => map_auto(),
        }
    }

    /// Return a bool based either on the setting or on a conditional value.
    pub fn or(self, map_auto: bool) -> (r: bool)
        ensures
            r == self.resolve(map_auto),
    {
        match self {
            TriState::Always => true,
            TriState::Never => false,
            TriState::Auto => map_auto,
        }
    }

    /// Resolve the setting as `or_else` does and, if it is true, produce a
    /// value with `on_true`; `on_true` is not called otherwise.
    pub fn then_some<T>(
        self,
        map_auto: impl FnOnce() -> bool,
        on_true: impl FnOnce() -> T,
    ) -> (r: Option<T>)
        requires
            self == TriState::Auto ==> map_auto.requires(()),
            self == TriState::Always ==> on_true.requires(()),
            self == TriState::Auto ==> (map_auto.ensures((), true) ==> on_true.requires(())),
        ensures
            self == TriState::Never ==> r is None,
            self == TriState::Always ==> r is Some,
            self == TriState::Auto ==> map_auto.ensures((), r is Some),
            r matches Some(v) ==> on_true.ensures((), v),
    {
        if self.or_else(map_auto) {
            Some(on_true())
        } else {
            None
        }
    }

    /// Resolve the setting as `or_else` does and, if it is false, produce a
    /// value with `on_false`; `on_false` is not called otherwise.
    pub fn else_some<T>(
        self,
        map_auto: impl FnOnce() -> bool,
        on_false: impl FnOnce() -> T,
    ) -> (r: Option<T>)
        requires
            self == TriState::Auto ==> map_auto.requires(()),
            self == TriState::Never ==> on_false.requires(()),
            self == TriState::Auto ==> (map_auto.ensures((), false) ==> on_false.requires(())),
        ensures
            self == TriState::Always ==> r is None,
            self == TriState::Never ==> r is Some,
            self == TriState::Auto ==> map_auto.ensures((), r is None),
            r matches Some(v) ==> on_false.ensures((), v),
    {
        if self.or_else(map_auto) {
            None
        } else {
            Some(on_false())
        }
    }
}

} // verus!
