//! How the suite's state gets into a test process: as text, in an environment
//! variable.

use crate::text;
use vstd::prelude::*;
use vstd::string::*;

verus! {

/// The suite's state as text, and the environment variable that it travels
/// in.
pub struct StateHandoff {
    var: String,
    json: String,
}

/// The name of the environment variable with that suffix.
pub open spec fn state_var(suffix: u64) -> Seq<char> {
    "RIG_STATE_"@ + text::hexadecimal(suffix as nat, 16)
}

/// The text that travels: that of the state, or nothing where the suite has
/// none.
pub open spec fn captured_text(serialized: Option<Seq<char>>) -> Seq<char> {
    match serialized {
        Some(s) => s,
        None => seq![],
    }
}

/// What a test process makes its state from, given what the variable holds:
/// that where the suite has a setup, and nothing at all where it has none.
pub open spec fn loaded_text(value: Option<Seq<char>>, has_setup: bool) -> Option<Seq<char>> {
    if has_setup {
        Some(
            match value {
                Some(v) => v,
                None => seq![],
            },
        )
    } else {
        None
    }
}

impl StateHandoff {
    /// The name of the environment variable.
    pub closed spec fn var_text(self) -> Seq<char> {
        self.var@
    }

    /// The state.
    pub closed spec fn json_text(self) -> Seq<char> {
        self.json@
    }

    /// The state that the suite's setup gave, as text; nothing where the suite
    /// has none.
    pub fn capture(serialized: Option<String>, suffix: u64) -> (h: StateHandoff)
        ensures
            h.var_text() == state_var(suffix),
            h.json_text() == captured_text(serialized.deep_view()),
    {
        let mut var = "RIG_STATE_".to_owned();
        var.append(&text::hex_number(suffix, 16));
        StateHandoff {
            var,
            json: match serialized {
                Some(s) => s,
                None => String::new(),
            },
        }
    }

    /// The name of the environment variable.
    pub fn var(&self) -> (s: &str)
        ensures
            s@ == self.var_text(),
    {
        self.var.as_str()
    }

    /// The state.
    pub fn json(&self) -> (s: &str)
        ensures
            s@ == self.json_text(),
    {
        self.json.as_str()
    }
}

/// What a test process makes its state from: the variable's value where the
/// suite has a setup, and nothing at all where it has none.
pub fn state_to_load(value: Option<String>, has_setup: bool) -> (r: Option<String>)
    ensures
        r.deep_view() == loaded_text(value.deep_view(), has_setup),
{
    if has_setup {
        match value {
            Some(v) => Some(v),
            None => Some(String::new()),
        }
    } else {
        None
    }
}

// ── laws ────────────────────────────────────────────────────────────────────

proof fn lemma_hexadecimal(n: nat, width: nat)
    ensures
        text::hexadecimal(n, width).len() == width,
        forall|i: int|
            0 <= i < width ==> ({
                let c = #[trigger] text::hexadecimal(n, width)[i] as int;
                48 <= c <= 57 || 97 <= c <= 102
            }),
    decreases width,
{
    if width > 0 {
        lemma_hexadecimal(n / 16, (width - 1) as nat);
    }
}

/// The variable's name is `RIG_STATE_` and sixteen lower-case hexadecimal
/// digits.
pub proof fn law_state_var_shape(suffix: u64)
    ensures
        state_var(suffix).len() == 26,
        "RIG_STATE_"@.is_prefix_of(state_var(suffix)),
        forall|i: int|
            10 <= i < 26 ==> ({
                let c = #[trigger] state_var(suffix)[i] as int;
                48 <= c <= 57 || 97 <= c <= 102
            }),
{
    reveal_strlit("RIG_STATE_");
    lemma_hexadecimal(suffix as nat, 16);
    let digits = text::hexadecimal(suffix as nat, 16);
    assert forall|i: int| 10 <= i < 26 implies ({
        let c = #[trigger] state_var(suffix)[i] as int;
        48 <= c <= 57 || 97 <= c <= 102
    }) by {
        assert(state_var(suffix)[i] == digits[i - 10]);
    }
    assert("RIG_STATE_"@ =~= state_var(suffix).take(10));
}

/// A test process makes its state from the text that the coordinator captured,
/// and from nothing where the suite has no setup, whatever the variable holds.
pub proof fn law_state_read_back(serialized: Option<Seq<char>>)
    ensures
        loaded_text(Some(captured_text(serialized)), serialized is Some) == serialized,
        forall|value: Option<Seq<char>>| #[trigger] loaded_text(value, false) is None,
{
}

/// Two runs with different suffixes use different variables.
pub proof fn law_state_vars_do_not_clash(a: u64, b: u64)
    ensures
        state_var(a) == state_var(b) ==> a == b,
{
    reveal_with_fuel(text::hex_range, 17);
    assert(text::hex_range(16) == 0x1_0000_0000_0000_0000);
    text::law_hexadecimal_read_back(a as nat, 16);
    text::law_hexadecimal_read_back(b as nat, 16);
    let head = "RIG_STATE_"@;
    assert(state_var(a).skip(head.len() as int) =~= text::hexadecimal(a as nat, 16));
    assert(state_var(b).skip(head.len() as int) =~= text::hexadecimal(b as nat, 16));
}

/// Where the suite has a setup, a test process makes its state from what the
/// variable holds, and from nothing where it is not set.
pub proof fn law_variable_holds_the_state(value: Seq<char>)
    ensures
        loaded_text(Some(value), true) == Some(value),
        loaded_text(None, true) == Some(Seq::<char>::empty()),
        captured_text(Some(value)) == value,
        captured_text(None).len() == 0,
{
}

} // verus!
