//! What tells one asset or chunk from another: its path and the modifiers
//! that were put on it.

use vstd::prelude::*;
use crate::fs_path::{FileSystemPath, path_to};
use crate::text::{chars_of, texts, ends_with, has_suffix, string_of, string_of_range};

verus! {

/// The view of an [`AssetIdent`].
pub struct IdentView {
    pub path: Seq<char>,
    pub modifiers: Seq<Seq<char>>,
}

/// `s` with `_` in place of every `/`.
pub open spec fn clean_separators(s: Seq<char>) -> Seq<char> {
    Seq::new(
        s.len(),
        |i: int|
            if s[i] == '/' {
                '_'
            } else {
                s[i]
            },
    )
}

/// What the modifiers add to an output name: for each, in order, a `_` and
/// the modifier with its separators cleaned.
pub open spec fn modifiers_suffix(modifiers: Seq<Seq<char>>) -> Seq<char>
    decreases modifiers.len(),
{
    if modifiers.len() == 0 {
        Seq::empty()
    } else {
        modifiers_suffix(modifiers.drop_last()) + seq!['_'] + clean_separators(modifiers.last())
    }
}

/// The name under which something with the identity `ident` is written out by
/// a context whose context path is `context`, with the extension `extension`.
///
/// The name starts from the path as seen from the context path (the whole
/// path where it does not lie below it), with its separators cleaned. An
/// extension that is already there is taken off; otherwise `._` is added, so
/// that `x.json` and `x.json.js` do not meet. Then come the modifiers and the
/// extension.
pub open spec fn output_name_of(
    ident: IdentView,
    context: Seq<char>,
    extension: Seq<char>,
) -> Seq<char> {
    let relative = match path_to(context, ident.path) {
        Some(rest) => rest,
        None => ident.path,
    };
    let name = clean_separators(relative);
    if ends_with(name, extension) {
        name.subrange(0, name.len() - extension.len()) + modifiers_suffix(ident.modifiers)
            + extension
    } else {
        name + modifiers_suffix(ident.modifiers) + seq!['.', '_'] + extension
    }
}

/// `modifiers` with `, ` between each two.
pub open spec fn modifier_list(modifiers: Seq<Seq<char>>) -> Seq<char>
    decreases modifiers.len(),
{
    if modifiers.len() == 0 {
        Seq::empty()
    } else if modifiers.len() == 1 {
        modifiers[0]
    } else {
        modifier_list(modifiers.drop_last()) + ", "@ + modifiers.last()
    }
}

/// The text that names an identity: its path, and after it, where it has
/// modifiers, the modifiers in round brackets.
pub open spec fn ident_text(ident: IdentView) -> Seq<char> {
    if ident.modifiers.len() == 0 {
        ident.path
    } else {
        ident.path + " ("@ + modifier_list(ident.modifiers) + ")"@
    }
}

/// The identity of an asset or a chunk.
#[derive(Debug, PartialEq, Eq, PartialOrd, Ord, Hash)]
pub struct AssetIdent {
    pub path: FileSystemPath,
    pub modifiers: Vec<String>,
}

impl View for AssetIdent {
    type V = IdentView;

    open spec fn view(&self) -> IdentView {
        IdentView { path: self.path@, modifiers: texts(self.modifiers@) }
    }
}

impl Clone for AssetIdent {
    fn clone(&self) -> (result: AssetIdent)
        ensures
            result@ == self@,
    {
        let mut modifiers: Vec<String> = Vec::new();
        let mut i: usize = 0;
        while i < self.modifiers.len()
            invariant
                i <= self.modifiers@.len(),
                modifiers@.len() == i,
                forall|j: int| 0 <= j < i ==> modifiers@[j]@ == self.modifiers@[j]@,
            decreases self.modifiers@.len() - i,
        {
            modifiers.push(self.modifiers[i].clone());
            i += 1;
        }
        assert(texts(modifiers@) =~= texts(self.modifiers@));
        AssetIdent { path: self.path.clone(), modifiers }
    }
}

/// `s` with `_` in place of every `/`.
fn cleaned(s: &Vec<char>) -> (result: Vec<char>)
    ensures
        result@ == clean_separators(s@),
{
    let mut result: Vec<char> = Vec::new();
    let mut i: usize = 0;
    while i < s.len()
        invariant
            i <= s@.len(),
            result@ == clean_separators(s@).subrange(0, i as int),
        decreases s@.len() - i,
    {
        let c = s[i];
        result.push(if c == '/' { '_' } else { c });
        assert(result@ =~= clean_separators(s@).subrange(0, i + 1));
        i += 1;
    }
    assert(result@ =~= clean_separators(s@));
    result
}

impl AssetIdent {
    /// The identity of what lies at `path`, with no modifier.
    pub fn from_path(path: FileSystemPath) -> (ident: AssetIdent)
        ensures
            ident@ == (IdentView { path: path@, modifiers: Seq::empty() }),
    {
        let ident = AssetIdent { path, modifiers: Vec::new() };
        assert(texts(ident.modifiers@) =~= Seq::<Seq<char>>::empty());
        ident
    }

    /// The path of the identity.
    pub fn path(&self) -> (path: &FileSystemPath)
        ensures
            path@ == self@.path,
    {
        &self.path
    }

    /// This identity with `modifier` added after its modifiers.
    pub fn with_modifier(&self, modifier: &str) -> (ident: AssetIdent)
        ensures
            ident@ == (IdentView {
                path: self@.path,
                modifiers: self@.modifiers.push(modifier@),
            }),
    {
        let mut ident = self.clone();
        ident.modifiers.push(String::from_str(modifier));
        assert(texts(ident.modifiers@) =~= texts(self.modifiers@).push(modifier@));
        ident
    }

    /// Whether the two identities are the same: the same path and the same
    /// modifiers in the same order.
    pub fn same(&self, other: &AssetIdent) -> (same: bool)
        ensures
            same == (self@ == other@),
    {
        if !self.path.same(&other.path) || self.modifiers.len() != other.modifiers.len() {
            assert(texts(self.modifiers@).len() == self.modifiers@.len());
            assert(texts(other.modifiers@).len() == other.modifiers@.len());
            return false;
        }
        let mut i: usize = 0;
        while i < self.modifiers.len()
            invariant
                i <= self.modifiers@.len(),
                self.modifiers@.len() == other.modifiers@.len(),
                forall|j: int|
                    0 <= j < i ==> texts(self.modifiers@)[j] == texts(other.modifiers@)[j],
            decreases self.modifiers@.len() - i,
        {
            if self.modifiers[i] != other.modifiers[i] {
                assert(texts(self.modifiers@)[i as int] != texts(other.modifiers@)[i as int]);
                return false;
            }
            i += 1;
        }
        assert(texts(self.modifiers@) =~= texts(other.modifiers@));
        true
    }

    /// The text that names this identity.
    pub fn to_string(&self) -> (text: String)
        ensures
            text@ == ident_text(self@),
    {
        let mut text = self.path.path.clone();
        if self.modifiers.len() == 0 {
            assert(texts(self.modifiers@).len() == 0);
            return text;
        }
        let ghost all = texts(self.modifiers@);
        text.append(" (");
        let mut i: usize = 0;
        assert(all.subrange(0, 0) =~= Seq::<Seq<char>>::empty());
        assert(text@ =~= self@.path + " ("@ + modifier_list(all.subrange(0, 0)));
        while i < self.modifiers.len()
            invariant
                i <= self.modifiers@.len(),
                all == texts(self.modifiers@),
                text@ == self@.path + " ("@ + modifier_list(all.subrange(0, i as int)),
            decreases self.modifiers@.len() - i,
        {
            proof {
                let upto = all.subrange(0, i + 1);
                assert(upto.drop_last() =~= all.subrange(0, i as int));
                assert(upto.last() == self.modifiers@[i as int]@);
                if i == 0 {
                    assert(upto[0] == self.modifiers@[0]@);
                    assert(text@ + self.modifiers@[0]@ =~= self@.path + " ("@ + modifier_list(
                        upto,
                    ));
                } else {
                    assert(text@ + ", "@ + self.modifiers@[i as int]@ =~= self@.path + " ("@
                        + modifier_list(upto));
                }
            }
            if i > 0 {
                text.append(", ");
            }
            text.append(self.modifiers[i].as_str());
            i += 1;
        }
        assert(all.subrange(0, i as int) =~= all);
        text.append(")");
        text
    }

    /// The name under which this identity is written out.
    pub fn output_name(&self, context_path: &FileSystemPath, extension: &str) -> (name: String)
        ensures
            name@ == output_name_of(self@, context_path@, extension@),
    {
        let relative = match context_path.get_path_to(&self.path) {
            Some(rest) => rest,
            None => self.path.path.clone(),
        };
        let name = cleaned(&chars_of(relative.as_str()));
        let ext = chars_of(extension);
        let removed = has_suffix(&name, &ext);
        let mut result = if removed {
            string_of_range(&name, 0, name.len() - ext.len())
        } else {
            string_of(&name)
        };
        let mut i: usize = 0;
        while i < self.modifiers.len()
            invariant
                i <= self.modifiers@.len(),
                result@ == (if removed {
                    name@.subrange(0, name@.len() - ext@.len())
                } else {
                    name@
                }) + modifiers_suffix(texts(self.modifiers@).subrange(0, i as int)),
            decreases self.modifiers@.len() - i,
        {
            let modifier = cleaned(&chars_of(self.modifiers[i].as_str()));
            result.push('_');
            result.append(string_of(&modifier).as_str());
            proof {
                let upto = texts(self.modifiers@).subrange(0, i + 1);
                assert(upto.drop_last() =~= texts(self.modifiers@).subrange(0, i as int));
                assert(upto.last() == self.modifiers@[i as int]@);
            }
            i += 1;
        }
        assert(texts(self.modifiers@).subrange(0, i as int) =~= texts(self.modifiers@));
        if !removed {
            result.push('.');
            result.push('_');
        }
        result.append(extension);
        assert(result@ =~= output_name_of(self@, context_path@, extension@));
        result
    }
}

} // verus!
