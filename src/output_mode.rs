use vstd::prelude::*;

verus! {

/// The prefix given to functions that return rendered text, unless configured.
pub open spec fn default_string_prefix() -> Seq<char> {
    seq!['m', 's', 'g', '_']
}

/// The prefix given to functions that return a pattern, unless configured.
pub open spec fn default_pattern_prefix() -> Seq<char> {
    seq!['p', 't', 'n', '_']
}

/// Which accessors are generated for each message and attribute, and the
/// prefix of each kind of accessor.
#[derive(Debug, Clone, PartialEq, Eq)]
pub enum OutputMode {
    String { prefix: String },
    Pattern { prefix: String },
    Both { string_prefix: String, pattern_prefix: String },
}

impl OutputMode {
    /// The prefix of the text-returning accessors, if this mode emits them.
    pub open spec fn spec_string_prefix(&self) -> Option<Seq<char>> {
        match self {
            OutputMode::String { prefix } => Some(prefix@),
            OutputMode::Both { string_prefix, .. } => Some(string_prefix@),
            OutputMode::Pattern { .. } => None,
        }
    }

    /// The prefix of the pattern-returning accessors, if this mode emits them.
    pub open spec fn spec_pattern_prefix(&self) -> Option<Seq<char>> {
        match self {
            OutputMode::Pattern { prefix } => Some(prefix@),
            OutputMode::Both { pattern_prefix, .. } => Some(pattern_prefix@),
            OutputMode::String { .. } => None,
        }
    }

    /// Pattern mode with the default pattern prefix.
    pub fn default_pattern() -> (r: Self)
        ensures
            r matches OutputMode::Pattern { prefix } && prefix@ == default_pattern_prefix(),
    {
        let prefix = String::from_str("ptn_");
        proof {
            reveal_strlit("ptn_");
        }
        OutputMode::Pattern { prefix }
    }

    /// Both modes, each with its default prefix.
    pub fn default_both() -> (r: Self)
        ensures
            r matches OutputMode::Both { string_prefix, pattern_prefix } && string_prefix@
                == default_string_prefix() && pattern_prefix@ == default_pattern_prefix(),
    {
        let string_prefix = String::from_str("msg_");
        let pattern_prefix = String::from_str("ptn_");
        proof {
            reveal_strlit("msg_");
            reveal_strlit("ptn_");
        }
        OutputMode::Both { string_prefix, pattern_prefix }
    }

    pub fn string_prefix(&self) -> (r: Option<&str>)
        ensures
            match r {
                Some(p) => self.spec_string_prefix() == Some(p@),
                None => self.spec_string_prefix() is None,
            },
    {
        match self {
            OutputMode::String { prefix } => Some(prefix.as_str()),
            OutputMode::Both { string_prefix, .. } => Some(string_prefix.as_str()),
            OutputMode::Pattern { .. } => None,
        }
    }

    pub fn pattern_prefix(&self) -> (r: Option<&str>)
        ensures
            match r {
                Some(p) => self.spec_pattern_prefix() == Some(p@),
                None => self.spec_pattern_prefix() is None,
            },
    {
        match self {
            OutputMode::Pattern { prefix } => Some(prefix.as_str()),
            OutputMode::Both { pattern_prefix, .. } => Some(pattern_prefix.as_str()),
            OutputMode::String { .. } => None,
        }
    }
}

impl Default for OutputMode {
    /// Text-returning accessors with the default prefix.
    fn default() -> (r: Self)
        ensures
            r matches OutputMode::String { prefix } && prefix@ == default_string_prefix(),
    {
        let prefix = String::from_str("msg_");
        proof {
            reveal_strlit("msg_");
        }
        OutputMode::String { prefix }
    }
}

} // verus!
