use vstd::prelude::*;
use vstd::string::StringSliceAdditionalSpecFns;

verus! {

/// How a command's result is printed.
#[derive(Debug, Clone, Copy, PartialEq, Eq, Structural)]
pub enum OutputFormat {
    JSON,
    TABLE,
}

impl OutputFormat {
    /// `json` selects JSON; anything else a table.
    pub fn parse(s: &str) -> (r: OutputFormat)
        ensures
            r == (if s.spec_bytes() == seq![106u8, 115u8, 111u8, 110u8] {
                OutputFormat::JSON
            } else {
                OutputFormat::TABLE
            }),
    {
        let b = s.as_bytes();
        if b.len() == 4 && b[0] == 106u8 && b[1] == 115u8 && b[2] == 111u8 && b[3] == 110u8 {
            assert(b@ =~= seq![106u8, 115u8, 111u8, 110u8]);
            OutputFormat::JSON
        } else {
            proof {
                if b@ == seq![106u8, 115u8, 111u8, 110u8] {
                    assert(b@[0] == 106u8);
                }
            }
            OutputFormat::TABLE
        }
    }
}

} // verus!
