//! User settings, as plain data.
//!
//! Named prompts are held as an ordered list of `(name, prompt)` pairs with
//! distinct names (the surrounding application persists them as a map).
//! Loading and saving the settings document is the caller's concern; the
//! defaulting rules and the prompt-order migration live here.

use vstd::prelude::*;

verus! {

/// The user's settings. Option-valued fields fall back to a default when
/// absent from the persisted document.
#[derive(Debug, Clone)]
pub struct Settings {
    pub openai_model: String,
    /// `(name, prompt)` pairs; names are distinct.
    pub custom_prompts: Vec<(String, String)>,
    pub prompt_order: Vec<String>,
    pub selected_tone: Option<String>,
    pub first_visit_complete: Option<bool>,
    pub shortcut_enabled: Option<bool>,
    pub shortcut_keys: Option<String>,
    pub theme: Option<String>,
}

/// The prompt names, in list order.
pub open spec fn prompt_names(prompts: Seq<(String, String)>) -> Seq<Seq<char>> {
    prompts.map_values(|p: (String, String)| p.0@)
}

/// Index of the first occurrence of `t`, or -1 when absent.
pub open spec fn first_pos(keys: Seq<Seq<char>>, t: Seq<char>) -> int
    decreases keys.len(),
{
    if keys.len() == 0 {
        -1
    } else if keys[0] == t {
        0
    } else {
        let p = first_pos(keys.drop_first(), t);
        if p < 0 {
            -1
        } else {
            1 + p
        }
    }
}

/// `first_pos` is the first match: no earlier element equals `t`, and -1
/// means no element does.
pub proof fn lemma_first_pos_exact(keys: Seq<Seq<char>>, t: Seq<char>, k: int)
    requires
        0 <= k <= keys.len(),
        forall|m: int| 0 <= m < k ==> keys[m] != t,
        k == keys.len() || keys[k] == t,
    ensures
        k < keys.len() ==> first_pos(keys, t) == k,
        k == keys.len() ==> first_pos(keys, t) == -1,
    decreases k,
{
    if keys.len() == 0 {
    } else if k == 0 {
    } else {
        assert(keys[0] != t);
        lemma_first_pos_exact(keys.drop_first(), t, k - 1);
    }
}

/// The list with the first occurrence of `t` moved to the front; the list
/// itself when `t` is absent.
pub open spec fn spec_promote(keys: Seq<Seq<char>>, t: Seq<char>) -> Seq<Seq<char>> {
    let p = first_pos(keys, t);
    if p < 0 {
        keys
    } else {
        seq![keys[p]] + keys.remove(p)
    }
}

impl Settings {
    /// Prompt names are distinct.
    pub open spec fn wf(self) -> bool {
        forall|i: int, j: int|
            0 <= i < j < self.custom_prompts@.len() ==> (#[trigger] self.custom_prompts@[i]).0@
                != (#[trigger] self.custom_prompts@[j]).0@
    }

    /// Whether the global shortcut is active; on by default.
    pub fn is_shortcut_enabled(&self) -> (r: bool)
        ensures
            r == (if self.shortcut_enabled is Some {
                self.shortcut_enabled->0
            } else {
                true
            }),
    {
        match self.shortcut_enabled {
            Some(b) => b,
            None => true,
        }
    }

    /// The configured shortcut keys, falling back to the default chord.
    pub fn get_shortcut_keys(&self) -> (r: String)
        ensures
            self.shortcut_keys is Some ==> r@ == self.shortcut_keys->0@,
            self.shortcut_keys is None ==> r@ == "meta+KeyM"@,
    {
        match &self.shortcut_keys {
            Some(s) => s.clone(),
            None => String::from_str("meta+KeyM"),
        }
    }

    /// The configured theme, falling back to light.
    pub fn get_theme(&self) -> (r: String)
        ensures
            self.theme is Some ==> r@ == self.theme->0@,
            self.theme is None ==> r@ == "light"@,
    {
        match &self.theme {
            Some(s) => s.clone(),
            None => String::from_str("light"),
        }
    }

    /// Backward-compatibility migration: when the prompt order is empty
    /// but prompts exist, rebuild it from the prompt names, putting the
    /// default prompt first when present. Returns whether anything
    /// changed, so the caller knows to persist the settings.
    pub fn normalize_prompt_order(&mut self) -> (changed: bool)
        ensures
            changed == (old(self).prompt_order@.len() == 0 && old(self).custom_prompts@.len() > 0),
            !changed ==> *final(self) == *old(self),
            changed ==> final(self).prompt_order.deep_view() == spec_promote(
                prompt_names(old(self).custom_prompts@),
                "Improve Writing"@,
            ),
            final(self).custom_prompts == old(self).custom_prompts,
            final(self).openai_model == old(self).openai_model,
            final(self).selected_tone == old(self).selected_tone,
            final(self).first_visit_complete == old(self).first_visit_complete,
            final(self).shortcut_enabled == old(self).shortcut_enabled,
            final(self).shortcut_keys == old(self).shortcut_keys,
            final(self).theme == old(self).theme,
    {
        if !(self.prompt_order.len() == 0 && self.custom_prompts.len() > 0) {
            return false;
        }
        let ghost keys = prompt_names(self.custom_prompts@);
        let target = String::from_str("Improve Writing");

        let mut names: Vec<String> = Vec::new();
        let mut i: usize = 0;
        while i < self.custom_prompts.len()
            invariant
                keys == prompt_names(self.custom_prompts@),
                i <= self.custom_prompts@.len(),
                names@.len() == i,
                forall|m: int| 0 <= m < i ==> (#[trigger] names@[m])@ == keys[m],
            decreases self.custom_prompts@.len() - i,
        {
            names.push(self.custom_prompts[i].0.clone());
            i = i + 1;
        }
        proof {
            assert(names.deep_view() =~= keys);
        }

        let mut pos: usize = 0;
        let n = names.len();
        loop
            invariant
                n == names@.len(),
                pos <= n,
                names.deep_view() == keys,
                forall|m: int| 0 <= m < pos ==> keys[m] != target@,
            ensures
                pos <= n,
                names.deep_view() == keys,
                forall|m: int| 0 <= m < pos ==> keys[m] != target@,
                pos < n ==> keys[pos as int] == target@,
            decreases n - pos,
        {
            if pos >= n {
                break;
            }
            if names[pos] == target {
                proof {
                    assert(keys[pos as int] == names@[pos as int]@);
                }
                break;
            }
            pos = pos + 1;
        }

        if pos < names.len() {
            proof {
                lemma_first_pos_exact(keys, target@, pos as int);
            }
            let moved = names.remove(pos);
            names.insert(0, moved);
            proof {
                assert(names.deep_view() =~= seq![keys[pos as int]] + keys.remove(pos as int));
            }
        } else {
            proof {
                lemma_first_pos_exact(keys, target@, pos as int);
            }
        }
        self.prompt_order = names;
        true
    }
}

impl Default for Settings {
    /// The out-of-the-box settings: one built-in prompt, selected, with
    /// the default shortcut and theme.
    fn default() -> (r: Settings)
        ensures
            r.openai_model@ == "gpt-4o-mini"@,
            r.custom_prompts@.len() == 1,
            r.custom_prompts@[0].0@ == "Improve Writing"@,
            r.custom_prompts@[0].1@ == "Improve this text while maintaining its meaning:"@,
            r.prompt_order@.len() == 1,
            r.prompt_order@[0]@ == "Improve Writing"@,
            r.selected_tone is Some && r.selected_tone->0@ == "Improve Writing"@,
            r.first_visit_complete == Some(false),
            r.shortcut_enabled == Some(true),
            r.shortcut_keys is Some && r.shortcut_keys->0@ == "meta+KeyM"@,
            r.theme is Some && r.theme->0@ == "light"@,
            r.wf(),
    {
        let mut custom_prompts: Vec<(String, String)> = Vec::new();
        custom_prompts.push(
            (
                String::from_str("Improve Writing"),
                String::from_str("Improve this text while maintaining its meaning:"),
            ),
        );
        let mut prompt_order: Vec<String> = Vec::new();
        prompt_order.push(String::from_str("Improve Writing"));
        Settings {
            openai_model: String::from_str("gpt-4o-mini"),
            custom_prompts,
            prompt_order,
            selected_tone: Some(String::from_str("Improve Writing")),
            first_visit_complete: Some(false),
            shortcut_enabled: Some(true),
            shortcut_keys: Some(String::from_str("meta+KeyM")),
            theme: Some(String::from_str("light")),
        }
    }
}

} // verus!
