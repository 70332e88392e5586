//! The keymap: which action each configured keybinding triggers.
use vstd::prelude::*;

use crate::config::{KeybindingsConfig, KEYBINDING_COUNT};
use crate::input::action::Action;
use crate::input::keybinding::{
    lemma_parse_error_not_duplicate, parse_keybinding, parse_result_view, spec_parse_keybinding,
    KeyBinding, KeyBindingErrorView, KeyBindingParseError,
};

verus! {

/// The actions that the keybinding settings trigger, in the order of the settings.
pub open spec fn setting_actions() -> Seq<Action> {
    seq![
        Action::Quit,
        Action::SpawnTerminal,
        Action::ZoomIn,
        Action::ZoomOut,
        Action::ResetZoom,
        Action::PanLeft,
        Action::PanRight,
        Action::PanUp,
        Action::PanDown,
        Action::FocusLeft,
        Action::FocusRight,
        Action::FocusUp,
        Action::FocusDown,
        Action::CenterFocused,
        Action::FitAll,
        Action::MoveClusterLeft,
        Action::MoveClusterRight,
        Action::MoveClusterUp,
        Action::MoveClusterDown,
        Action::FitFocusedCluster,
    ]
}

/// One setting as the keymap reads it: its name, its string, its action.
pub type Entry = (Seq<char>, Seq<char>, Action);

/// The settings of `config` as keymap entries.
pub open spec fn config_entries(config: KeybindingsConfig) -> Seq<Entry> {
    Seq::new(
        KEYBINDING_COUNT as nat,
        |i: int| (KeybindingsConfig::names()[i], config.values()[i], setting_actions()[i]),
    )
}

/// The index of the first entry of `acc` bound to `b`, or -1.
pub open spec fn first_with_binding(acc: Seq<(KeyBinding, Action, Seq<char>)>, b: KeyBinding) -> int
    decreases acc.len(),
{
    if acc.len() == 0 {
        -1
    } else if first_with_binding(acc.drop_last(), b) >= 0 {
        first_with_binding(acc.drop_last(), b)
    } else if acc.last().0 == b {
        acc.len() - 1
    } else {
        -1
    }
}

/// Reads the entries in order: each string is parsed, and a binding that an
/// earlier entry already holds is refused, naming both settings.
pub open spec fn spec_build(es: Seq<Entry>) -> Result<Seq<(KeyBinding, Action, Seq<char>)>, KeyBindingErrorView>
    decreases es.len(),
{
    if es.len() == 0 {
        Ok(Seq::empty())
    } else {
        match spec_build(es.drop_last()) {
            Err(e) => Err(e),
            Ok(acc) => {
                let (name, value, action) = es.last();
                match spec_parse_keybinding(value) {
                    Err(e) => Err(e),
                    Ok(b) => {
                        let j = first_with_binding(acc, b);
                        if j >= 0 {
                            Err(KeyBindingErrorView::DuplicateBinding { first: acc[j].2, second: name })
                        } else {
                            Ok(acc.push((b, action, name)))
                        }
                    },
                }
            },
        }
    }
}

/// No two pairs share a binding.
pub open spec fn distinct_bindings(s: Seq<(KeyBinding, Action)>) -> bool {
    forall|i: int, j: int| 0 <= i < j < s.len() ==> (#[trigger] s[i]).0 != (#[trigger] s[j]).0
}

/// The action bound to `b`, if any.
pub open spec fn lookup(s: Seq<(KeyBinding, Action)>, b: KeyBinding) -> Option<Action> {
    if exists|i: int| 0 <= i < s.len() && (#[trigger] s[i]).0 == b {
        Some(s[choose|i: int| 0 <= i < s.len() && (#[trigger] s[i]).0 == b].1)
    } else {
        None
    }
}

pub open spec fn drop_names(acc: Seq<(KeyBinding, Action, Seq<char>)>) -> Seq<(KeyBinding, Action)> {
    acc.map_values(|t: (KeyBinding, Action, Seq<char>)| (t.0, t.1))
}

/// The bindings of the configuration, each with its action.
pub struct KeyMap {
    bindings: Vec<(KeyBinding, Action)>,
}

impl View for KeyMap {
    type V = Seq<(KeyBinding, Action)>;

    closed spec fn view(&self) -> Seq<(KeyBinding, Action)> {
        self.bindings@
    }
}

impl KeyMap {
    #[verifier::type_invariant]
    closed spec fn wf(self) -> bool {
        distinct_bindings(self.bindings@)
    }

    proof fn lemma_first_with_binding(acc: Seq<(KeyBinding, Action, Seq<char>)>, b: KeyBinding)
        ensures
            -1 <= first_with_binding(acc, b) < acc.len(),
            first_with_binding(acc, b) >= 0 ==> acc[first_with_binding(acc, b)].0 == b,
            first_with_binding(acc, b) >= 0 ==> forall|k: int|
                0 <= k < first_with_binding(acc, b) ==> (#[trigger] acc[k]).0 != b,
            first_with_binding(acc, b) < 0 ==> forall|k: int|
                0 <= k < acc.len() ==> (#[trigger] acc[k]).0 != b,
        decreases acc.len(),
    {
        if acc.len() > 0 {
            let prev = acc.drop_last();
            Self::lemma_first_with_binding(prev, b);
            assert forall|k: int| 0 <= k < prev.len() implies #[trigger] acc[k] == prev[k] by {}
            assert(acc.last() == acc[acc.len() - 1]);
            let f = first_with_binding(acc, b);
            if first_with_binding(prev, b) >= 0 {
                assert(f == first_with_binding(prev, b));
                assert forall|k: int| 0 <= k < f implies (#[trigger] acc[k]).0 != b by {
                    assert(prev[k].0 != b);
                }
            } else if acc.last().0 == b {
                assert forall|k: int| 0 <= k < f implies (#[trigger] acc[k]).0 != b by {
                    assert(prev[k].0 != b);
                }
            } else {
                assert forall|k: int| 0 <= k < acc.len() implies (#[trigger] acc[k]).0 != b by {
                    if k < prev.len() {
                        assert(prev[k].0 != b);
                    }
                }
            }
        }
    }

    proof fn lemma_build_err_extends(es: Seq<Entry>, i: int)
        requires
            0 <= i <= es.len(),
            spec_build(es.take(i)) is Err,
        ensures
            spec_build(es) == spec_build(es.take(i)),
        decreases es.len() - i,
    {
        if i < es.len() {
            assert(es.take(i + 1).drop_last() =~= es.take(i));
            Self::lemma_build_err_extends(es, i + 1);
        } else {
            assert(es.take(i) =~= es);
        }
    }

    /// Builds the keymap from the keybinding settings. Fails on the first
    /// setting that does not parse, or whose binding an earlier setting holds.
    pub fn from_config(config: &KeybindingsConfig) -> (r: Result<KeyMap, KeyBindingParseError>)
        ensures
            match r {
                Ok(m) => (spec_build(config_entries(*config)) matches Ok(acc) && m@ == drop_names(acc)),
                Err(e) => spec_build(config_entries(*config)) == Err::<Seq<(KeyBinding, Action, Seq<char>)>, KeyBindingErrorView>(e@),
            },
    {
        let entries: [(&'static str, &str, Action); KEYBINDING_COUNT] = [
            ("quit", config.quit.as_str(), Action::Quit),
            ("spawn_terminal", config.spawn_terminal.as_str(), Action::SpawnTerminal),
            ("zoom_in", config.zoom_in.as_str(), Action::ZoomIn),
            ("zoom_out", config.zoom_out.as_str(), Action::ZoomOut),
            ("reset_zoom", config.reset_zoom.as_str(), Action::ResetZoom),
            ("pan_left", config.pan_left.as_str(), Action::PanLeft),
            ("pan_right", config.pan_right.as_str(), Action::PanRight),
            ("pan_up", config.pan_up.as_str(), Action::PanUp),
            ("pan_down", config.pan_down.as_str(), Action::PanDown),
            ("focus_left", config.focus_left.as_str(), Action::FocusLeft),
            ("focus_right", config.focus_right.as_str(), Action::FocusRight),
            ("focus_up", config.focus_up.as_str(), Action::FocusUp),
            ("focus_down", config.focus_down.as_str(), Action::FocusDown),
            ("center_focused", config.center_focused.as_str(), Action::CenterFocused),
            ("fit_all", config.fit_all.as_str(), Action::FitAll),
            ("move_cluster_left", config.move_cluster_left.as_str(), Action::MoveClusterLeft),
            ("move_cluster_right", config.move_cluster_right.as_str(), Action::MoveClusterRight),
            ("move_cluster_up", config.move_cluster_up.as_str(), Action::MoveClusterUp),
            ("move_cluster_down", config.move_cluster_down.as_str(), Action::MoveClusterDown),
            ("fit_focused_cluster", config.fit_focused_cluster.as_str(), Action::FitFocusedCluster),
        ];
        let ghost es = config_entries(*config);
        assert(forall|i: int|
            0 <= i < KEYBINDING_COUNT ==> (#[trigger] entries@[i]).0@ == es[i].0 && entries@[i].1@
                == es[i].1 && entries@[i].2 == es[i].2);
        let mut bindings: Vec<(KeyBinding, Action)> = Vec::new();
        let mut names: Vec<&'static str> = Vec::new();
        let ghost mut acc: Seq<(KeyBinding, Action, Seq<char>)> = Seq::empty();
        let mut i: usize = 0;
        assert(es.take(0) =~= Seq::<Entry>::empty());
        while i < KEYBINDING_COUNT
            invariant
                0 <= i <= KEYBINDING_COUNT,
                es == config_entries(*config),
                es.len() == KEYBINDING_COUNT,
                forall|k: int|
                    0 <= k < KEYBINDING_COUNT ==> (#[trigger] entries@[k]).0@ == es[k].0
                        && entries@[k].1@ == es[k].1 && entries@[k].2 == es[k].2,
                spec_build(es.take(i as int)) == Ok::<Seq<(KeyBinding, Action, Seq<char>)>, KeyBindingErrorView>(acc),
                bindings@ == drop_names(acc),
                names@.len() == acc.len(),
                forall|k: int| 0 <= k < acc.len() ==> (#[trigger] names@[k])@ == acc[k].2,
                distinct_bindings(bindings@),
            decreases KEYBINDING_COUNT - i,
        {
            let (name, value, action) = entries[i];
            assert(es.take(i + 1).drop_last() =~= es.take(i as int));
            assert(es.take(i + 1).last() == es[i as int]);
            let parsed = parse_keybinding(value);
            let binding = match parsed {
                Ok(b) => b,
                Err(e) => {
                    proof {
                        Self::lemma_build_err_extends(es, i + 1);
                    }
                    return Err(e);
                },
            };
            proof {
                Self::lemma_first_with_binding(acc, binding);
            }
            let mut j: usize = 0;
            #[verifier::loop_isolation(false)]
            while j < bindings.len()
                invariant
                    0 <= j <= bindings.len(),
                    bindings@ == drop_names(acc),
                    forall|k: int| 0 <= k < j ==> (#[trigger] acc[k]).0 != binding,
                decreases bindings.len() - j,
            {
                if bindings[j].0 == binding {
                    assert(acc[j as int].0 == binding);
                    assert(first_with_binding(acc, binding) == j);
                    proof {
                        Self::lemma_build_err_extends(es, i + 1);
                    }
                    return Err(KeyBindingParseError::DuplicateBinding { first: names[j], second: name });
                }
                j = j + 1;
            }
            assert(first_with_binding(acc, binding) < 0);
            bindings.push((binding, action));
            names.push(name);
            proof {
                acc = acc.push((binding, action, es[i as int].0));
                assert(bindings@ =~= drop_names(acc));
            }
            i = i + 1;
        }
        assert(es.take(KEYBINDING_COUNT as int) =~= es);
        let m = KeyMap { bindings };
        Ok(m)
    }

    /// The action bound to `binding`.
    pub fn get(&self, binding: &KeyBinding) -> (r: Option<Action>)
        ensures
            r == lookup(self@, *binding),
    {
        proof {
            use_type_invariant(self);
        }
        let mut i: usize = 0;
        while i < self.bindings.len()
            invariant
                0 <= i <= self.bindings.len(),
                distinct_bindings(self.bindings@),
                forall|k: int| 0 <= k < i ==> (#[trigger] self.bindings@[k]).0 != *binding,
            decreases self.bindings.len() - i,
        {
            if self.bindings[i].0 == *binding {
                let ghost c = choose|k: int| 0 <= k < self@.len() && (#[trigger] self@[k]).0 == *binding;
                assert(c == i) by {
                    if c != i {
                        assert(self@[c].0 == self@[i as int].0);
                    }
                };
                return Some(self.bindings[i].1);
            }
            i = i + 1;
        }
        None
    }

    /// All bindings with their actions, in the order of the settings.
    pub fn bindings(&self) -> (r: &[(KeyBinding, Action)])
        ensures
            r@ == self@,
            distinct_bindings(r@),
    {
        proof {
            use_type_invariant(self);
        }
        self.bindings.as_slice()
    }
}

/// When the settings build a keymap, each setting's binding is bound to its
/// action, and no binding is bound twice.
pub proof fn law_keymap_binds_each_setting(es: Seq<Entry>)
    requires
        spec_build(es) is Ok,
    ensures
        ({
            let acc = spec_build(es)->Ok_0;
            &&& acc.len() == es.len()
            &&& distinct_bindings(drop_names(acc))
            &&& forall|i: int|
                0 <= i < es.len() ==> spec_parse_keybinding(es[i].1) == Ok::<KeyBinding, KeyBindingErrorView>(
                    (#[trigger] acc[i]).0,
                ) && acc[i].1 == es[i].2 && acc[i].2 == es[i].0 && lookup(drop_names(acc), acc[i].0)
                    == Some(es[i].2)
        }),
    decreases es.len(),
{
    let acc = spec_build(es)->Ok_0;
    if es.len() > 0 {
        let prev = es.drop_last();
        law_keymap_binds_each_setting(prev);
        let pacc = spec_build(prev)->Ok_0;
        let b = spec_parse_keybinding(es.last().1)->Ok_0;
        KeyMap::lemma_first_with_binding(pacc, b);
        assert(acc == pacc.push((b, es.last().2, es.last().0)));
        let d = drop_names(acc);
        let pd = drop_names(pacc);
        assert forall|i: int| 0 <= i < pacc.len() implies #[trigger] acc[i] == pacc[i] by {}
        assert forall|i: int| 0 <= i < d.len() implies #[trigger] d[i] == (acc[i].0, acc[i].1) by {}
        assert forall|i: int| 0 <= i < pd.len() implies #[trigger] pd[i] == (pacc[i].0, pacc[i].1) by {}
        assert(distinct_bindings(d)) by {
            assert forall|i: int, j: int| 0 <= i < j < d.len() implies (#[trigger] d[i]).0 != (#[trigger] d[j]).0 by {
                if j == pacc.len() {
                    assert(pacc[i].0 != b);
                } else {
                    assert(pd[i].0 != pd[j].0);
                }
            }
        }
        assert forall|i: int|
            0 <= i < es.len() implies spec_parse_keybinding(es[i].1) == Ok::<KeyBinding, KeyBindingErrorView>(
            (#[trigger] acc[i]).0,
        ) && acc[i].1 == es[i].2 && acc[i].2 == es[i].0 && lookup(d, acc[i].0) == Some(es[i].2) by {
            if i < pacc.len() {
                assert(prev[i] == es[i]);
                assert(acc[i] == pacc[i]);
            }
            assert(d[i].0 == acc[i].0);
            let c = choose|c: int| 0 <= c < d.len() && (#[trigger] d[c]).0 == acc[i].0;
            assert(c == i) by {
                if c != i {
                    assert(d[c].0 == d[i].0);
                }
            }
        }
    }
}


/// Every setting parses, and no two settings parse to the same binding.
pub open spec fn parse_distinct(es: Seq<Entry>) -> bool {
    &&& forall|i: int| 0 <= i < es.len() ==> (#[trigger] spec_parse_keybinding(es[i].1)) is Ok
    &&& forall|i: int, j: int|
        0 <= i < j < es.len() ==> #[trigger] spec_parse_keybinding(es[i].1) != #[trigger] spec_parse_keybinding(
            es[j].1,
        )
}

/// Settings `i` before `j` parse to one and the same binding.
pub open spec fn same_binding(es: Seq<Entry>, i: int, j: int) -> bool {
    &&& 0 <= i < j < es.len()
    &&& spec_parse_keybinding(es[i].1) is Ok
    &&& spec_parse_keybinding(es[i].1) == spec_parse_keybinding(es[j].1)
}

proof fn lemma_prefix_parse_distinct(es: Seq<Entry>)
    requires
        es.len() > 0,
        parse_distinct(es),
    ensures
        parse_distinct(es.drop_last()),
{
    let p = es.drop_last();
    assert forall|i: int| 0 <= i < p.len() implies (#[trigger] spec_parse_keybinding(p[i].1)) is Ok by {
        assert(p[i] == es[i]);
        assert(spec_parse_keybinding(es[i].1) is Ok);
    }
    assert forall|i: int, j: int| 0 <= i < j < p.len() implies #[trigger] spec_parse_keybinding(p[i].1)
        != #[trigger] spec_parse_keybinding(p[j].1) by {
        assert(p[i] == es[i] && p[j] == es[j]);
        assert(spec_parse_keybinding(es[i].1) != spec_parse_keybinding(es[j].1));
    }
}

/// The keymap is built exactly when every setting parses and no two settings
/// parse to the same binding: bindings that differ in any modifier or in the
/// key never clash.
pub proof fn law_keymap_built_iff_bindings_distinct(es: Seq<Entry>)
    ensures
        spec_build(es) is Ok <==> parse_distinct(es),
    decreases es.len(),
{
    if spec_build(es) is Ok {
        law_keymap_binds_each_setting(es);
        let acc = spec_build(es)->Ok_0;
        let d = drop_names(acc);
        assert forall|i: int| 0 <= i < es.len() implies (#[trigger] spec_parse_keybinding(es[i].1)) is Ok by {
            assert(spec_parse_keybinding(es[i].1) == Ok::<KeyBinding, KeyBindingErrorView>(acc[i].0));
        }
        assert forall|i: int, j: int| 0 <= i < j < es.len() implies #[trigger] spec_parse_keybinding(
            es[i].1,
        ) != #[trigger] spec_parse_keybinding(es[j].1) by {
            assert(spec_parse_keybinding(es[i].1) == Ok::<KeyBinding, KeyBindingErrorView>(acc[i].0));
            assert(spec_parse_keybinding(es[j].1) == Ok::<KeyBinding, KeyBindingErrorView>(acc[j].0));
            assert(d[i] == (acc[i].0, acc[i].1));
            assert(d[j] == (acc[j].0, acc[j].1));
            assert(d[i].0 != d[j].0);
        }
    }
    if parse_distinct(es) && es.len() > 0 {
        let prev = es.drop_last();
        lemma_prefix_parse_distinct(es);
        law_keymap_built_iff_bindings_distinct(prev);
        law_keymap_binds_each_setting(prev);
        let pacc = spec_build(prev)->Ok_0;
        let n = es.len() - 1;
        assert(es.last() == es[n]);
        assert(spec_parse_keybinding(es[n].1) is Ok);
        let b = spec_parse_keybinding(es[n].1)->Ok_0;
        KeyMap::lemma_first_with_binding(pacc, b);
        if first_with_binding(pacc, b) >= 0 {
            let f = first_with_binding(pacc, b);
            assert(prev[f] == es[f]);
            assert(spec_parse_keybinding(es[f].1) == Ok::<KeyBinding, KeyBindingErrorView>(pacc[f].0));
            assert(spec_parse_keybinding(es[f].1) != spec_parse_keybinding(es[n].1));
        }
    }
}

/// A refused duplicate names two settings, the earlier first, that parse to
/// one and the same binding.
pub proof fn law_duplicate_names_settings_with_one_binding(es: Seq<Entry>, first: Seq<char>, second: Seq<char>)
    requires
        spec_build(es) == Err::<Seq<(KeyBinding, Action, Seq<char>)>, KeyBindingErrorView>(
            KeyBindingErrorView::DuplicateBinding { first, second },
        ),
    ensures
        exists|i: int, j: int| #[trigger] same_binding(es, i, j) && es[i].0 == first && es[j].0 == second,
    decreases es.len(),
{
    let prev = es.drop_last();
    match spec_build(prev) {
        Err(_) => {
            law_duplicate_names_settings_with_one_binding(prev, first, second);
            let (i, j) = choose|i: int, j: int| #[trigger] same_binding(prev, i, j) && prev[i].0 == first
                && prev[j].0 == second;
            assert(prev[i] == es[i] && prev[j] == es[j]);
            assert(same_binding(es, i, j));
        },
        Ok(pacc) => {
            let n = es.len() - 1;
            assert(es.last() == es[n]);
            lemma_parse_error_not_duplicate(es[n].1);
            let b = spec_parse_keybinding(es[n].1)->Ok_0;
            law_keymap_binds_each_setting(prev);
            KeyMap::lemma_first_with_binding(pacc, b);
            let f = first_with_binding(pacc, b);
            assert(prev[f] == es[f]);
            assert(spec_parse_keybinding(es[f].1) == Ok::<KeyBinding, KeyBindingErrorView>(pacc[f].0));
            assert(same_binding(es, f, n));
        },
    }
}

} // verus!
