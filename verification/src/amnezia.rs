//! The obfuscation settings of AmneziaWG.
use vstd::prelude::*;

use crate::list::put;
use crate::text::{concat2, decimal, decimal_text, lemma_filter_push, Text};

verus! {

/// The settings as the server sends them.
pub struct AmneziaConfig {
    pub jc: u32,
    pub jmin: u32,
    pub jmax: u32,
    pub s1: u32,
    pub s2: u32,
    pub h1: u32,
    pub h2: u32,
    pub h3: u32,
    pub h4: u32,
    pub i1: Option<String>,
    pub i2: Option<String>,
    pub i3: Option<String>,
    pub i4: Option<String>,
    pub i5: Option<String>,
}

/// What an `AmneziaConfig` says.
#[verifier::ext_equal]
pub struct AmneziaModel {
    pub jc: u32,
    pub jmin: u32,
    pub jmax: u32,
    pub s1: u32,
    pub s2: u32,
    pub h1: u32,
    pub h2: u32,
    pub h3: u32,
    pub h4: u32,
    pub i1: Option<Text>,
    pub i2: Option<Text>,
    pub i3: Option<Text>,
    pub i4: Option<Text>,
    pub i5: Option<Text>,
}

impl DeepView for AmneziaConfig {
    type V = AmneziaModel;

    open spec fn deep_view(&self) -> AmneziaModel {
        AmneziaModel {
            jc: self.jc,
            jmin: self.jmin,
            jmax: self.jmax,
            s1: self.s1,
            s2: self.s2,
            h1: self.h1,
            h2: self.h2,
            h3: self.h3,
            h4: self.h4,
            i1: self.i1.deep_view(),
            i2: self.i2.deep_view(),
            i3: self.i3.deep_view(),
            i4: self.i4.deep_view(),
            i5: self.i5.deep_view(),
        }
    }
}

/// A setting with a number.
pub open spec fn numbered(name: Text, n: u32) -> Text {
    name + decimal(n as nat)
}

/// A setting with a text, which is left out where the text is missing or empty.
pub open spec fn worded(name: Text, value: Option<Text>) -> Seq<Text> {
    match value {
        Some(v) => if v.len() > 0 {
            seq![name + v]
        } else {
            Seq::empty()
        },
        None => Seq::empty(),
    }
}

/// The arguments of `awg` for the settings.
pub open spec fn amnezia_args(interface: Text, config: AmneziaModel) -> Seq<Text> {
    seq![
        "set"@,
        interface,
        numbered("jc="@, config.jc),
        numbered("jmin="@, config.jmin),
        numbered("jmax="@, config.jmax),
        numbered("s1="@, config.s1),
        numbered("s2="@, config.s2),
        numbered("h1="@, config.h1),
        numbered("h2="@, config.h2),
        numbered("h3="@, config.h3),
        numbered("h4="@, config.h4),
    ] + worded("i1="@, config.i1) + worded("i2="@, config.i2) + worded("i3="@, config.i3) + worded(
        "i4="@,
        config.i4,
    ) + worded("i5="@, config.i5)
}

/// Adds a setting with a number.
fn put_number(args: &mut Vec<String>, name: &str, n: u32)
    ensures
        final(args).deep_view() == old(args).deep_view().push(numbered(name@, n)),
{
    let digits = decimal_text(n as u64);
    put(args, concat2(name, digits.as_str()));
}

/// Adds a setting with a text, where there is one.
fn put_word(args: &mut Vec<String>, name: &str, value: &Option<String>)
    ensures
        final(args).deep_view() == old(args).deep_view() + worded(name@, value.deep_view()),
{
    match value {
        Some(v) => {
            if !v.as_str().is_empty() {
                put(args, concat2(name, v.as_str()));
            }
        },
        None => {},
    }
}

/// The arguments of `awg` for the settings.
pub fn apply_amnezia_config(interface: &str, config: &AmneziaConfig) -> (args: Vec<String>)
    ensures
        args.deep_view() == amnezia_args(interface@, config.deep_view()),
{
    let mut args: Vec<String> = Vec::new();
    put(&mut args, "set".to_owned());
    put(&mut args, interface.to_owned());
    put_number(&mut args, "jc=", config.jc);
    put_number(&mut args, "jmin=", config.jmin);
    put_number(&mut args, "jmax=", config.jmax);
    put_number(&mut args, "s1=", config.s1);
    put_number(&mut args, "s2=", config.s2);
    put_number(&mut args, "h1=", config.h1);
    put_number(&mut args, "h2=", config.h2);
    put_number(&mut args, "h3=", config.h3);
    put_number(&mut args, "h4=", config.h4);
    put_word(&mut args, "i1=", &config.i1);
    put_word(&mut args, "i2=", &config.i2);
    put_word(&mut args, "i3=", &config.i3);
    put_word(&mut args, "i4=", &config.i4);
    put_word(&mut args, "i5=", &config.i5);
    args
}

// ---------- what holds of the settings ----------

/// All numbers are set, under their names and in their order, and behind them
/// the texts that are there and not empty.
pub proof fn law_all_settings_are_set(interface: Text, config: AmneziaModel)
    ensures
        ({
            let args = amnezia_args(interface, config);
            &&& args.len() >= 11
            &&& args[0] == "set"@
            &&& args[1] == interface
            &&& args[2] == "jc="@ + decimal(config.jc as nat)
            &&& args[3] == "jmin="@ + decimal(config.jmin as nat)
            &&& args[4] == "jmax="@ + decimal(config.jmax as nat)
            &&& args[5] == "s1="@ + decimal(config.s1 as nat)
            &&& args[6] == "s2="@ + decimal(config.s2 as nat)
            &&& args[7] == "h1="@ + decimal(config.h1 as nat)
            &&& args[8] == "h2="@ + decimal(config.h2 as nat)
            &&& args[9] == "h3="@ + decimal(config.h3 as nat)
            &&& args[10] == "h4="@ + decimal(config.h4 as nat)
            &&& args.skip(11) == seq![
                ("i1="@, config.i1),
                ("i2="@, config.i2),
                ("i3="@, config.i3),
                ("i4="@, config.i4),
                ("i5="@, config.i5),
            ].filter(
                |named: (Text, Option<Text>)| named.1 is Some && named.1->0.len() > 0,
            ).map_values(|named: (Text, Option<Text>)| named.0 + named.1->0)
        }),
{
    let args = amnezia_args(interface, config);
    let named: Seq<(Text, Option<Text>)> = Seq::empty();
    let a = named.push(("i1="@, config.i1));
    let b = a.push(("i2="@, config.i2));
    let c = b.push(("i3="@, config.i3));
    let d = c.push(("i4="@, config.i4));
    let e = d.push(("i5="@, config.i5));
    let keep = |named: (Text, Option<Text>)| named.1 is Some && named.1->0.len() > 0;
    assert(e == seq![
        ("i1="@, config.i1),
        ("i2="@, config.i2),
        ("i3="@, config.i3),
        ("i4="@, config.i4),
        ("i5="@, config.i5),
    ]);
    reveal(Seq::filter);
    lemma_filter_push(named, keep, ("i1="@, config.i1));
    lemma_filter_push(a, keep, ("i2="@, config.i2));
    lemma_filter_push(b, keep, ("i3="@, config.i3));
    lemma_filter_push(c, keep, ("i4="@, config.i4));
    lemma_filter_push(d, keep, ("i5="@, config.i5));
    let words = worded("i1="@, config.i1) + worded("i2="@, config.i2) + worded("i3="@, config.i3)
        + worded("i4="@, config.i4) + worded("i5="@, config.i5);
    assert(args.skip(11) == words);
    let write = |named: (Text, Option<Text>)| named.0 + named.1->0;
    assert(named.filter(keep).map_values(write) == Seq::<Text>::empty());
    assert(a.filter(keep).map_values(write) == worded("i1="@, config.i1));
    assert(b.filter(keep).map_values(write) == worded("i1="@, config.i1) + worded(
        "i2="@,
        config.i2,
    ));
    assert(c.filter(keep).map_values(write) == worded("i1="@, config.i1) + worded(
        "i2="@,
        config.i2,
    ) + worded("i3="@, config.i3));
    assert(d.filter(keep).map_values(write) == worded("i1="@, config.i1) + worded(
        "i2="@,
        config.i2,
    ) + worded("i3="@, config.i3) + worded("i4="@, config.i4));
    assert(e.filter(keep).map_values(write) == words);
}

} // verus!
