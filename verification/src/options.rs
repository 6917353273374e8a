//! Generation options.
//!
//! Four independent switches control which accessor surface the emitter
//! generates, one per combination of aggregate kind and anonymity. Only
//! anonymous unions get accessors by default. Options arrive as name/value
//! pairs; grouped names set several switches at once, and an unknown name is
//! a configuration error naming the option.

use vstd::prelude::*;

use crate::util::str_eq;

verus! {

/// The configuration: the schema directory and the four accessor switches.
pub struct Options {
    pub path: String,
    pub anonymous_enum_impl: bool,
    pub named_enum_impl: bool,
    pub anonymous_struct_impl: bool,
    pub named_struct_impl: bool,
}

/// Mathematical mirror of `Options`.
pub struct OptionsS {
    pub path: Seq<char>,
    pub anonymous_enum_impl: bool,
    pub named_enum_impl: bool,
    pub anonymous_struct_impl: bool,
    pub named_struct_impl: bool,
}

impl View for Options {
    type V = OptionsS;

    open spec fn view(&self) -> OptionsS {
        OptionsS {
            path: self.path@,
            anonymous_enum_impl: self.anonymous_enum_impl,
            named_enum_impl: self.named_enum_impl,
            anonymous_struct_impl: self.anonymous_struct_impl,
            named_struct_impl: self.named_struct_impl,
        }
    }
}

/// Applying one named option: the four plain names set one switch, the
/// grouped names set several, and any other name is rejected.
pub open spec fn apply_option(o: OptionsS, name: Seq<char>, value: bool) -> Result<
    OptionsS,
    Seq<char>,
> {
    if name == "anonymous_enum_impl"@ {
        Ok(OptionsS { anonymous_enum_impl: value, ..o })
    } else if name == "named_enum_impl"@ {
        Ok(OptionsS { named_enum_impl: value, ..o })
    } else if name == "anonymous_struct_impl"@ {
        Ok(OptionsS { anonymous_struct_impl: value, ..o })
    } else if name == "named_struct_impl"@ {
        Ok(OptionsS { named_struct_impl: value, ..o })
    } else if name == "anonymous_impl"@ {
        Ok(OptionsS { anonymous_enum_impl: value, anonymous_struct_impl: value, ..o })
    } else if name == "named_impl"@ {
        Ok(OptionsS { named_enum_impl: value, named_struct_impl: value, ..o })
    } else if name == "enum_impl"@ {
        Ok(OptionsS { anonymous_enum_impl: value, named_enum_impl: value, ..o })
    } else if name == "struct_impl"@ {
        Ok(OptionsS { anonymous_struct_impl: value, named_struct_impl: value, ..o })
    } else if name == "impl"@ {
        Ok(
            OptionsS {
                anonymous_enum_impl: value,
                named_enum_impl: value,
                anonymous_struct_impl: value,
                named_struct_impl: value,
                ..o
            },
        )
    } else {
        Err(name)
    }
}

/// Applying a list of named options in order; the first unknown name wins.
pub open spec fn apply_options(o: OptionsS, settings: Seq<(Seq<char>, bool)>) -> Result<
    OptionsS,
    Seq<char>,
>
    decreases settings,
{
    if settings.len() == 0 {
        Ok(o)
    } else {
        match apply_option(o, settings[0].0, settings[0].1) {
            Ok(o2) => apply_options(o2, settings.subrange(1, settings.len() as int)),
            Err(e) => Err(e),
        }
    }
}

/// The mathematical value of a name/value pair list.
pub open spec fn settings_view(settings: Seq<(String, bool)>) -> Seq<(Seq<char>, bool)>
    decreases settings,
{
    if settings.len() == 0 {
        Seq::empty()
    } else {
        proof {
            assert(decreases_to!(settings => settings[0]));
            assert(decreases_to!(settings => settings.subrange(1, settings.len() as int)));
        }
        seq![(settings[0].0@, settings[0].1)] + settings_view(
            settings.subrange(1, settings.len() as int),
        )
    }
}

/// A pair list's view has one entry per pair, in order.
pub proof fn lemma_settings_view(settings: Seq<(String, bool)>)
    ensures
        settings_view(settings).len() == settings.len(),
        forall|i: int|
            0 <= i < settings.len() ==> settings_view(settings)[i] == (
                #[trigger] settings[i].0@,
                settings[i].1,
            ),
    decreases settings,
{
    if settings.len() > 0 {
        lemma_settings_view(settings.subrange(1, settings.len() as int));
        assert forall|i: int|
            0 <= i < settings.len() implies settings_view(settings)[i] == (
            #[trigger] settings[i].0@,
            settings[i].1,
        ) by {
            if i > 0 {
                assert(settings.subrange(1, settings.len() as int)[i - 1] == settings[i]);
            }
        }
    }
}

impl Options {
    /// The default configuration for a schema directory: only anonymous
    /// unions get accessor generation.
    pub fn new(path: String) -> (r: Options)
        ensures
            r@.path == path@,
            !r@.named_struct_impl,
            !r@.anonymous_struct_impl,
            !r@.named_enum_impl,
            r@.anonymous_enum_impl,
    {
        Options {
            path,
            anonymous_enum_impl: true,
            named_enum_impl: false,
            anonymous_struct_impl: false,
            named_struct_impl: false,
        }
    }

    /// The accessor switch for a union, by anonymity.
    pub fn enum_impl(&self, is_anonymous: bool) -> (r: bool)
        ensures
            r == if is_anonymous {
                self@.anonymous_enum_impl
            } else {
                self@.named_enum_impl
            },
    {
        if is_anonymous {
            self.anonymous_enum_impl
        } else {
            self.named_enum_impl
        }
    }

    /// The accessor switch for a record, by anonymity.
    pub fn struct_impl(&self, is_anonymous: bool) -> (r: bool)
        ensures
            r == if is_anonymous {
                self@.anonymous_struct_impl
            } else {
                self@.named_struct_impl
            },
    {
        if is_anonymous {
            self.anonymous_struct_impl
        } else {
            self.named_struct_impl
        }
    }

    /// Apply one named option, or report the name as unknown.
    pub fn set_option(&mut self, name: &str, value: bool) -> (r: Result<(), String>)
        ensures
            match (r, apply_option(old(self)@, name@, value)) {
                (Ok(_), Ok(o2)) => final(self)@ == o2,
                (Err(e), Err(se)) => e@ == se && final(self)@ == old(self)@,
                _ => false,
            },
    {
        if str_eq(name, "anonymous_enum_impl") {
            self.anonymous_enum_impl = value;
        } else if str_eq(name, "named_enum_impl") {
            self.named_enum_impl = value;
        } else if str_eq(name, "anonymous_struct_impl") {
            self.anonymous_struct_impl = value;
        } else if str_eq(name, "named_struct_impl") {
            self.named_struct_impl = value;
        } else if str_eq(name, "anonymous_impl") {
            self.anonymous_enum_impl = value;
            self.anonymous_struct_impl = value;
        } else if str_eq(name, "named_impl") {
            self.named_enum_impl = value;
            self.named_struct_impl = value;
        } else if str_eq(name, "enum_impl") {
            self.anonymous_enum_impl = value;
            self.named_enum_impl = value;
        } else if str_eq(name, "struct_impl") {
            self.anonymous_struct_impl = value;
            self.named_struct_impl = value;
        } else if str_eq(name, "impl") {
            self.anonymous_enum_impl = value;
            self.named_enum_impl = value;
            self.anonymous_struct_impl = value;
            self.named_struct_impl = value;
        } else {
            return Err(String::from_str(name));
        }
        Ok(())
    }

    /// Apply a list of named options in order; the first unknown name is
    /// reported and later options are not applied.
    pub fn into_options(&mut self, settings: &Vec<(String, bool)>) -> (r: Result<(), String>)
        ensures
            match (r, apply_options(old(self)@, settings_view(settings@))) {
                (Ok(_), Ok(o2)) => final(self)@ == o2,
                (Err(e), Err(se)) => e@ == se,
                _ => false,
            },
    {
        proof {
            lemma_settings_view(settings@);
        }
        let ghost pairs = settings_view(settings@);
        let n = settings.len();
        let mut i: usize = 0;
        proof {
            assert(pairs.subrange(0, n as int) =~= pairs);
        }
        while i < n
            invariant
                n == settings@.len(),
                0 <= i <= n,
                pairs == settings_view(settings@),
                pairs.len() == n,
                forall|j: int|
                    0 <= j < n ==> pairs[j] == (#[trigger] settings@[j].0@, settings@[j].1),
                apply_options(old(self)@, pairs) == apply_options(
                    self@,
                    pairs.subrange(i as int, n as int),
                ),
            decreases n - i,
        {
            let ghost suffix = pairs.subrange(i as int, n as int);
            proof {
                assert(suffix[0] == pairs[i as int]);
                assert(suffix.subrange(1, suffix.len() as int) =~= pairs.subrange(
                    i + 1,
                    n as int,
                ));
            }
            let pair = &settings[i];
            match self.set_option(pair.0.as_str(), pair.1) {
                Ok(_) => {},
                Err(e) => {
                    return Err(e);
                },
            }
            i = i + 1;
        }
        proof {
            assert(pairs.subrange(n as int, n as int).len() == 0);
        }
        Ok(())
    }
}

} // verus!
