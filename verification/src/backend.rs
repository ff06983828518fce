//! The model registry behind a multi-model backend: keys are derived
//! from the model file names, must be unique, and an optional requested
//! key selects one loaded model, defaulting to the first.
//!
//! The registry holds only the keys; the loaded model handles live with
//! the engine that owns them, side by side with these indices.

use vstd::prelude::*;

use crate::error::Error;
use crate::opts::spec_trim;

verus! {

/// The file-name part of a path: the characters after the last `/`;
/// empty for a path that ends in a separator.
pub open spec fn spec_file_name(s: Seq<char>) -> Seq<char>
    decreases s.len(),
{
    if s.len() == 0 {
        Seq::empty()
    } else if s.last() == '/' {
        Seq::empty()
    } else {
        spec_file_name(s.drop_last()).push(s.last())
    }
}

/// Whether a model path yields a usable key: the path and its file name
/// are non-blank.
pub open spec fn spec_key_ok(path: Seq<char>) -> bool {
    spec_trim(path).len() > 0 && spec_trim(spec_file_name(path)).len() > 0
}

/// When the suffix from `start` holds no separator and `start` sits just
/// after one (or at the front), that suffix is the file name.
proof fn lemma_file_name_at(s: Seq<char>, start: int)
    requires
        0 <= start <= s.len(),
        forall|j: int| start <= j < s.len() ==> s[j] != '/',
        start == 0 || s[start - 1] == '/',
    ensures
        spec_file_name(s) == s.subrange(start, s.len() as int),
    decreases s.len() - start,
{
    if start == s.len() {
        lemma_file_name_empty_suffix(s, start);
    } else {
        assert(s.last() != '/');
        lemma_file_name_at(s.drop_last(), start);
        assert(s.drop_last().subrange(start, s.len() - 1).push(s.last()) =~= s.subrange(
            start,
            s.len() as int,
        ));
    }
}

/// A path whose tail from `start` is empty has its file name decided by
/// what stands before `start`.
proof fn lemma_file_name_empty_suffix(s: Seq<char>, start: int)
    requires
        start == s.len(),
        start == 0 || s[start - 1] == '/',
    ensures
        spec_file_name(s) == Seq::<char>::empty(),
{
    if s.len() > 0 {
        assert(s.last() == '/');
    }
    assert(spec_file_name(s) =~= Seq::<char>::empty());
}

/// Whether two strings hold the same characters.
fn str_eq(a: &str, b: &str) -> (r: bool)
    ensures
        r == (a@ =~= b@),
{
    let n: usize = a.unicode_len();
    if n != b.unicode_len() {
        return false;
    }
    let mut i: usize = 0;
    while i < n
        invariant
            n == a@.len() == b@.len(),
            0 <= i <= n,
            forall|j: int| 0 <= j < i ==> a@[j] == b@[j],
        decreases n - i,
    {
        if a.get_char(i) != b.get_char(i) {
            return false;
        }
        i = i + 1;
    }
    true
}

/// Derive a model key from a model path: its file name.
///
/// Fails exactly when the path or the file name is blank.
pub fn model_key_from_path(model_path: &str) -> (r: Result<String, Error>)
    ensures
        r is Ok <==> spec_key_ok(model_path@),
        r matches Ok(key) ==> key@ == spec_file_name(model_path@),
{
    let n: usize = model_path.unicode_len();
    let mut chars: Vec<char> = Vec::new();
    let mut i: usize = 0;
    while i < n
        invariant
            n == model_path@.len(),
            0 <= i <= n,
            chars@ =~= model_path@.subrange(0, i as int),
        decreases n - i,
    {
        chars.push(model_path.get_char(i));
        proof {
            assert(model_path@.subrange(0, i + 1) =~= model_path@.subrange(0, i as int).push(
                model_path@[i as int],
            ));
        }
        i = i + 1;
    }
    proof {
        assert(chars@ =~= model_path@);
    }
    let trimmed = crate::silero::trim_chars(&chars);
    if trimmed.len() == 0 {
        proof {
            assert(!spec_key_ok(model_path@));
        }
        return Err(Error::invalid_input(String::from_str("model path must be provided")));
    }
    let mut start: usize = n;
    while start > 0 && model_path.get_char(start - 1) != '/'
        invariant
            n == model_path@.len(),
            0 <= start <= n,
            forall|j: int| start <= j < n ==> model_path@[j] != '/',
        decreases start,
    {
        start = start - 1;
    }
    proof {
        lemma_file_name_at(model_path@, start as int);
    }
    let mut name: Vec<char> = Vec::new();
    let mut k: usize = start;
    while k < n
        invariant
            n == model_path@.len(),
            start <= k <= n,
            name@ =~= model_path@.subrange(start as int, k as int),
        decreases n - k,
    {
        name.push(model_path.get_char(k));
        proof {
            assert(model_path@.subrange(start as int, k + 1) =~= model_path@.subrange(
                start as int,
                k as int,
            ).push(model_path@[k as int]));
        }
        k = k + 1;
    }
    let name_trimmed = crate::silero::trim_chars(&name);
    if name_trimmed.len() == 0 {
        return Err(Error::invalid_input(String::from_str(
            "model path does not name a model file",
        )));
    }
    Ok(crate::textfmt::chars_to_string(&name))
}

/// The keys of the loaded models, in load order; the key at an index
/// names the model handle at the same index.
pub struct ModelRegistry {
    /// One key per loaded model, derived from its file name.
    pub keys: Vec<String>,
}

impl ModelRegistry {
    /// At least one model, and no two models share a key.
    pub open spec fn inv(&self) -> bool {
        &&& self.keys@.len() >= 1
        &&& forall|i: int, j: int|
            0 <= i < j < self.keys@.len() ==> (#[trigger] self.keys@[i])@ != (
            #[trigger] self.keys@[j])@
    }

    /// Build the registry from the model paths, in order.
    ///
    /// Fails when no path is given, when a path yields no usable key, or
    /// when two paths yield the same key.
    pub fn new(model_paths: &Vec<String>) -> (r: Result<ModelRegistry, Error>)
        ensures
            r matches Ok(reg) ==> reg.inv() && reg.keys@.len() == model_paths@.len() && forall|
                i: int,
            |
                0 <= i < model_paths@.len() ==> (#[trigger] reg.keys@[i])@ == spec_file_name(
                    model_paths@[i]@,
                ),
    {
        if model_paths.len() == 0 {
            return Err(Error::invalid_input(String::from_str(
                "at least one model must be provided",
            )));
        }
        let mut keys: Vec<String> = Vec::new();
        let mut i: usize = 0;
        while i < model_paths.len()
            invariant
                0 <= i <= model_paths@.len(),
                keys@.len() == i,
                forall|k: int|
                    0 <= k < i ==> (#[trigger] keys@[k])@ == spec_file_name(model_paths@[k]@),
                forall|a: int, b: int|
                    0 <= a < b < i ==> (#[trigger] keys@[a])@ != (#[trigger] keys@[b])@,
            decreases model_paths@.len() - i,
        {
            let key = model_key_from_path(model_paths[i].as_str())?;
            let mut j: usize = 0;
            while j < keys.len()
                invariant
                    0 <= j <= keys@.len(),
                    forall|k: int| 0 <= k < j ==> (#[trigger] keys@[k])@ != key@,
                decreases keys@.len() - j,
            {
                if str_eq(keys[j].as_str(), key.as_str()) {
                    return Err(Error::invalid_input(String::from_str(
                        "duplicate model key derived from the model paths",
                    )));
                }
                j = j + 1;
            }
            keys.push(key);
            i = i + 1;
        }
        Ok(ModelRegistry { keys })
    }

    /// The key used when no model key is requested: the first loaded.
    pub fn default_model_key(&self) -> (r: &String)
        requires
            self.inv(),
        ensures
            r == self.keys@[0],
    {
        &self.keys[0]
    }

    /// The index of the model a request selects: the first loaded when no
    /// key is given, else the model with exactly that key.
    ///
    /// Fails exactly when a key is requested that no loaded model has.
    pub fn selected_index(&self, model_key: &Option<String>) -> (r: Result<usize, Error>)
        requires
            self.inv(),
        ensures
            (*model_key) is None ==> r == Ok::<usize, Error>(0usize),
            (*model_key) matches Some(k) ==> {
                &&& (r is Ok <==> exists|i: int|
                    0 <= i < self.keys@.len() && (#[trigger] self.keys@[i])@ == k@)
                &&& (r matches Ok(idx) ==> idx < self.keys@.len() && self.keys@[idx as int]@ == k@)
            },
    {
        match model_key {
            None => Ok(0),
            Some(k) => {
                let mut i: usize = 0;
                while i < self.keys.len()
                    invariant
                        *model_key == Some(*k),
                        0 <= i <= self.keys@.len(),
                        forall|j: int| 0 <= j < i ==> (#[trigger] self.keys@[j])@ != k@,
                    decreases self.keys@.len() - i,
                {
                    if str_eq(self.keys[i].as_str(), k.as_str()) {
                        return Ok(i);
                    }
                    i = i + 1;
                }
                Err(Error::Backend { message: String::from_str("unknown model key") })
            },
        }
    }
}

} // verus!
