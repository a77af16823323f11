use vstd::prelude::*;

verus! {

/// The report format asked for on the command line.
#[derive(Clone, Copy, PartialEq, Eq, Structural, Debug)]
pub enum OutputFormat {
    Summary,
    Tap,
}

/// Reads a format name: `summary` or `tap`.
pub fn parse_output_format(format: &str) -> (r: Result<OutputFormat, &'static str>)
    ensures
        format@ == "summary"@ ==> r == Ok::<OutputFormat, &'static str>(OutputFormat::Summary),
        format@ == "tap"@ ==> r == Ok::<OutputFormat, &'static str>(OutputFormat::Tap),
        format@ != "summary"@ && format@ != "tap"@ ==> r is Err,
{
    proof {
        reveal_strlit("summary");
        reveal_strlit("tap");
        assert("tap"@.len() != "summary"@.len());
    }
    let summary = String::from_str("summary");
    let tap = String::from_str("tap");
    let given = String::from_str(format);
    if given == summary {
        Ok(OutputFormat::Summary)
    } else if given == tap {
        Ok(OutputFormat::Tap)
    } else {
        Err("Invalid output format")
    }
}

impl std::str::FromStr for OutputFormat {
    type Err = &'static str;

    fn from_str(format: &str) -> Result<Self, Self::Err> {
        parse_output_format(format)
    }
}

} // verus!
