use crate::errors::FunctionCallError;
use crate::errors::SpecFunctionCallError;
use crate::template_functions_v1;
use crate::template_functions_v1::call_view;
use crate::template_functions_v1::format_spec;
use crate::text::same_text;
use crate::value::views;
use crate::value::SpecValue;
use crate::value::Value;
use vstd::prelude::*;
use vstd::string::StringExecFns;

verus! {

/// A version of the set of template functions. A workflow keeps the version it was written
/// for, so that a later set never changes what it means.
#[derive(Clone, Copy, Debug, PartialEq, Eq, Structural)]
pub enum Version {
    V1,
}

/// What a call of `name` with `args` returns under `version`.
pub open spec fn invoke_spec(version: Version, name: Seq<char>, args: Seq<SpecValue>) -> Result<
    SpecValue,
    SpecFunctionCallError,
> {
    match version {
        Version::V1 => {
            if name == "format"@ {
                format_spec(args)
            } else {
                Err(SpecFunctionCallError::InvalidArgument("unknown function: "@ + name))
            }
        },
    }
}

/// Calls the template function `name` of `version` on `args`.
///
/// A name that the version does not define is refused as an invalid argument.
pub fn invoke(version: Version, name: &str, args: Vec<Value>) -> (res: Result<
    Value,
    FunctionCallError,
>)
    ensures
        call_view(res) == invoke_spec(version, name@, views(args@)),
{
    match version {
        Version::V1 => {
            if same_text(name, "format") {
                template_functions_v1::format(args)
            } else {
                Err(
                    FunctionCallError::InvalidArgument(
                        String::from_str("unknown function: ").concat(name),
                    ),
                )
            }
        },
    }
}

} // verus!
