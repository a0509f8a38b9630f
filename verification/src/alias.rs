//! Firewall aliases: the content of a new alias as the firewall wants it,
//! and why an alias could not be deleted.

use vstd::prelude::*;
use vstd::string::StringExecFns;
use vstd::utf8::encode_utf8;

use crate::text::{
    contains_bytes, has_part, split_on, split_text, texts_of, trim_text, trimmed_text,
};

verus! {

/// The first `n` parts, each trimmed, one to a line.
pub open spec fn lines_joined(parts: Seq<Seq<char>>, n: int) -> Seq<char>
    decreases n,
{
    if n <= 0 {
        Seq::empty()
    } else if n == 1 {
        trimmed_text(parts[0])
    } else {
        lines_joined(parts, n - 1) + "\n"@ + trimmed_text(parts[n - 1])
    }
}

/// The content of an alias as the firewall wants it: the entries the user
/// separated by commas, each without the white space around it, one to a
/// line.
pub fn alias_content(content: &str) -> (formatted: String)
    ensures
        formatted@ == lines_joined(split_on(content@, ','), split_on(content@, ',').len() as int),
{
    let parts = split_text(content, ',');
    let ghost all = texts_of(parts@);
    let mut formatted = String::new();
    let mut i: usize = 0;
    while i < parts.len()
        invariant
            i <= parts.len(),
            all == texts_of(parts@),
            formatted@ == lines_joined(all, i as int),
        decreases parts.len() - i,
    {
        let ghost before = formatted@;
        assert(all[i as int] == parts[i as int]@);
        if i > 0 {
            formatted.append("\n");
        }
        formatted.append(trim_text(parts[i].as_str()).as_str());
        proof {
            if i == 0 {
                assert(formatted@ =~= trimmed_text(all[0]));
            } else {
                assert(formatted@ =~= before + "\n"@ + trimmed_text(all[i as int]));
            }
        }
        i = i + 1;
    }
    formatted
}

/// Whether the firewall refused to delete an alias because rules use it.
pub open spec fn in_use(error_text: Seq<char>) -> bool {
    has_part(encode_utf8(error_text), encode_utf8("Alias in use"@)) || has_part(
        encode_utf8(error_text),
        encode_utf8("Currently in use by"@),
    )
}

/// The message for an alias that the firewall refused to delete.
pub open spec fn delete_message(error_text: Seq<char>) -> Seq<char> {
    if in_use(error_text) {
        "Cannot delete this alias because it is currently in use by firewall rules. Please remove references to this alias in your firewall rules first."@
    } else {
        "Server returned error: "@ + error_text
    }
}

/// The message for an alias that the firewall refused to delete.
pub fn delete_failure(error_text: &str) -> (message: String)
    ensures
        message@ == delete_message(error_text@),
{
    if contains_bytes(error_text.as_bytes(), "Alias in use".as_bytes()) || contains_bytes(
        error_text.as_bytes(),
        "Currently in use by".as_bytes(),
    ) {
        "Cannot delete this alias because it is currently in use by firewall rules. Please remove references to this alias in your firewall rules first.".to_owned()
    } else {
        let mut message = "Server returned error: ".to_owned();
        message.append(error_text);
        message
    }
}

} // verus!
