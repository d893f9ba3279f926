use vstd::prelude::*;

use crate::utils::{chars_of, same_chars};

verus! {

/// The settings that can be changed while the window manager runs.
pub struct Config {
    pub border_width: u16,
}

/// The name of the one setting, `border_width`.
pub open spec fn setting_name() -> Seq<char> {
    seq!['b', 'o', 'r', 'd', 'e', 'r', '_', 'w', 'i', 'd', 't', 'h']
}

impl Config {
    /// The value of the setting named `name`; an unknown name reads as 0.
    pub open spec fn setting(self, name: Seq<char>) -> u16 {
        if name == setting_name() {
            self.border_width
        } else {
            0
        }
    }
}

impl Default for Config {
    fn default() -> (c: Self)
        ensures
            c == (Config { border_width: 5 }),
    {
        Self { border_width: 5 }
    }
}

/// Whether `name` is the name of the setting.
fn is_setting_name(name: &Vec<char>) -> (b: bool)
    ensures
        b == (name@ == setting_name()),
{
    let border_width = chars_of("border_width");
    proof {
        reveal_strlit("border_width");
        assert(border_width@ =~= setting_name());
    }
    same_chars(name, &border_width)
}

impl Config {
    /// The value of the setting named `value`; an unknown name reads as 0.
    pub fn index(&self, value: &str) -> (r: u16)
        ensures
            r == self.setting(value@),
    {
        if is_setting_name(&chars_of(value)) {
            self.border_width
        } else {
            0
        }
    }

    /// The place of the setting named `value`, to be written.
    pub fn index_mut(&mut self, value: &str) -> (r: &mut u16)
        requires
            value@ == setting_name(),
        ensures
            *r == old(self).border_width,
            *final(self) == (Config { border_width: *final(r) }),
    {
        self.setting_mut(&chars_of(value))
    }

    /// The place of the setting named by the characters `name`.
    pub fn setting_mut(&mut self, name: &Vec<char>) -> (r: &mut u16)
        requires
            name@ == setting_name(),
        ensures
            *r == old(self).border_width,
            *final(self) == (Config { border_width: *final(r) }),
    {
        &mut self.border_width
    }
}

} // verus!
