use vstd::prelude::*;

verus! {

/// Names of the events exchanged between the desktop front end and the
/// back end that runs jobs.
#[derive(Clone, Copy, Debug, PartialEq, Eq, Structural)]
pub enum SubcatEvent {
    FeMenuDisable,
    BeMenuSelect,
    FeGenerate,
    BeGenerateRes,
}

/// The PascalCase name of an event.
pub open spec fn event_name(e: SubcatEvent) -> Seq<char> {
    match e {
        SubcatEvent::FeMenuDisable => "FeMenuDisable"@,
        SubcatEvent::BeMenuSelect => "BeMenuSelect"@,
        SubcatEvent::FeGenerate => "FeGenerate"@,
        SubcatEvent::BeGenerateRes => "BeGenerateRes"@,
    }
}

impl SubcatEvent {
    /// The event's name as the front end spells it.
    pub fn as_ref_str(&self) -> (r: &'static str)
        ensures
            r@ == event_name(*self),
    {
        match self {
            SubcatEvent::FeMenuDisable => "FeMenuDisable",
            SubcatEvent::BeMenuSelect => "BeMenuSelect",
            SubcatEvent::FeGenerate => "FeGenerate",
            SubcatEvent::BeGenerateRes => "BeGenerateRes",
        }
    }

    /// Every event, in declaration order.
    pub fn variants() -> (r: Vec<SubcatEvent>)
        ensures
            r@ == seq![
                SubcatEvent::FeMenuDisable,
                SubcatEvent::BeMenuSelect,
                SubcatEvent::FeGenerate,
                SubcatEvent::BeGenerateRes,
            ],
    {
        let r = vec![
            SubcatEvent::FeMenuDisable,
            SubcatEvent::BeMenuSelect,
            SubcatEvent::FeGenerate,
            SubcatEvent::BeGenerateRes,
        ];
        assert(r@ =~= seq![
            SubcatEvent::FeMenuDisable,
            SubcatEvent::BeMenuSelect,
            SubcatEvent::FeGenerate,
            SubcatEvent::BeGenerateRes,
        ]);
        r
    }
}

} // verus!
