//! Choosing the output path for a filtered document.

use vstd::prelude::*;

use crate::text::{dec_str, trim_trailing_slashes, trimmed_slashes, usize_to_string};
use vstd::string::*;

verus! {

/// The path `get_path_for_output` returns: the explicit output at `index`
/// when one was given; otherwise the base directory (stripped of trailing
/// slashes, `.` by default) joined with `filtered_` and the input's file
/// name, or a placeholder name when the input has none.
pub open spec fn output_path_spec(
    index: int,
    outputs: Seq<Seq<char>>,
    file_name: Option<Seq<char>>,
    base_dir: Option<Seq<char>>,
) -> Seq<char> {
    if 0 <= index < outputs.len() {
        outputs[index]
    } else {
        let base = match base_dir {
            Some(d) => trimmed_slashes(d),
            None => "."@,
        };
        let name = match file_name {
            Some(n) => n,
            None => "file_name_error"@ + dec_str(index),
        };
        base + "/filtered_"@ + name
    }
}

/// The view of an optional borrowed string.
pub open spec fn opt_view(o: Option<String>) -> Option<Seq<char>> {
    match o {
        Some(s) => Some(s@),
        None => None,
    }
}

/// Picks the output path for input number `index`: the explicit output if
/// one was given, else a `filtered_` name under the base directory.
pub fn get_path_for_output(
    index: usize,
    outputs: &Vec<String>,
    file_name: &Option<String>,
    base_dir: &Option<String>,
) -> (r: String)
    ensures
        r@ == output_path_spec(
            index as int,
            outputs@.map_values(|s: String| s@),
            opt_view(*file_name),
            opt_view(*base_dir),
        ),
{
    if index < outputs.len() {
        let out = outputs[index].clone();
        proof {
            assert(outputs@.map_values(|s: String| s@)[index as int] == outputs@[index as int]@);
        }
        return out;
    }
    let mut r: String = match base_dir {
        Some(d) => trim_trailing_slashes(d.as_str()),
        None => ".".to_owned(),
    };
    r.append("/filtered_");
    match file_name {
        Some(n) => {
            r.append(n.as_str());
        },
        None => {
            r.append("file_name_error");
            let num = usize_to_string(index);
            r.append(num.as_str());
        },
    }
    proof {
        assert(r@ =~= output_path_spec(
            index as int,
            outputs@.map_values(|s: String| s@),
            opt_view(*file_name),
            opt_view(*base_dir),
        ));
    }
    r
}

} // verus!
