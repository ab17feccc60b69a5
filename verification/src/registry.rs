//! The static table of downloadable dictionaries: one entry per supported
//! language, giving its source URL, its expected size, and its display name.
use crate::helper::str_eq;
use vstd::prelude::*;

verus! {

/// One downloadable dictionary: the language code it is keyed by, the display
/// name embedded in its records, the archive's source URL, and a size
/// estimate used when the server reports no content length.
pub struct OfflineDict {
    pub code: String,
    pub name: String,
    pub url: String,
    pub length_mb: u64,
}

impl OfflineDict {
    /// A usable entry has a size estimate that is positive (so percentages
    /// are well defined) and small enough that its byte count fits in `u64`.
    pub open spec fn wf(&self) -> bool {
        1 <= self.length_mb <= 0x10000
    }
}

fn mk_entry(code: &str, name: &str, url: &str, length_mb: u64) -> (r: OfflineDict)
    ensures
        r.code@ == code@,
        r.name@ == name@,
        r.url@ == url@,
        r.length_mb == length_mb,
{
    OfflineDict {
        code: String::from_str(code),
        name: String::from_str(name),
        url: String::from_str(url),
        length_mb,
    }
}

/// The fixed registry: the nine languages with downloadable dictionaries,
/// their display names, source URLs and size estimates, keyed by unique
/// codes.
pub fn default_registry() -> (r: Vec<OfflineDict>)
    ensures
        r@.len() == 9,
        forall|i: int| 0 <= i < r@.len() ==> (#[trigger] r@[i]).wf(),
        forall|i: int, j: int| 0 <= i < j < r@.len() ==> r@[i].code@ != r@[j].code@,
        r@[0].code@ == "en"@ && r@[0].name@ == "English"@ && r@[0].length_mb == 90,
        r@[1].code@ == "fr"@ && r@[1].name@ == "French"@ && r@[1].length_mb == 25,
        r@[2].code@ == "de"@ && r@[2].name@ == "German"@ && r@[2].length_mb == 41,
        r@[3].code@ == "es"@ && r@[3].name@ == "Spanish"@ && r@[3].length_mb == 39,
        r@[4].code@ == "it"@ && r@[4].name@ == "Italian"@ && r@[4].length_mb == 32,
        r@[5].code@ == "fa"@ && r@[5].name@ == "Persian"@ && r@[5].length_mb == 3,
        r@[6].code@ == "pt"@ && r@[6].name@ == "Portuguese"@ && r@[6].length_mb == 20,
        r@[7].code@ == "zh-CN"@ && r@[7].name@ == "Chinese"@ && r@[7].length_mb == 47,
        r@[8].code@ == "ar"@ && r@[8].name@ == "Arabic"@ && r@[8].length_mb == 20,
{
    let mut r: Vec<OfflineDict> = Vec::new();
    r.push(mk_entry("en", "English", "https://github.com/Arian94/tiny-beast-dictionary/releases/download/v.12.55/incorrect_en.tar.xz", 90));
    r.push(mk_entry("fr", "French", "https://github.com/Arian94/tiny-beast-dictionary/releases/download/v.12.55/incorrect_fr.tar.xz", 25));
    r.push(mk_entry("de", "German", "https://github.com/Arian94/tiny-beast-dictionary/releases/download/v.12.55/incorrect_de.tar.xz", 41));
    r.push(mk_entry("es", "Spanish", "https://github.com/Arian94/tiny-beast-dictionary/releases/download/v.12.55/incorrect_es.tar.xz", 39));
    r.push(mk_entry("it", "Italian", "https://github.com/Arian94/tiny-beast-dictionary/releases/download/v.12.55/incorrect_it.tar.xz", 32));
    r.push(mk_entry("fa", "Persian", "https://github.com/Arian94/tiny-beast-dictionary/releases/download/v.12.55/incorrect_fa.tar.xz", 3));
    r.push(mk_entry("pt", "Portuguese", "https://github.com/Arian94/tiny-beast-dictionary/releases/download/v.12.55/incorrect_pt.tar.xz", 20));
    r.push(mk_entry("zh-CN", "Chinese", "https://github.com/Arian94/tiny-beast-dictionary/releases/download/v.12.55/incorrect-zh-CN.tar.xz", 47));
    r.push(mk_entry("ar", "Arabic", "https://github.com/Arian94/tiny-beast-dictionary/releases/download/v.12.55/incorrect_ar.tar.xz", 20));
    proof {
        reveal_strlit("en");
        reveal_strlit("fr");
        reveal_strlit("de");
        reveal_strlit("es");
        reveal_strlit("it");
        reveal_strlit("fa");
        reveal_strlit("pt");
        reveal_strlit("zh-CN");
        reveal_strlit("ar");
        assert forall|i: int, j: int| 0 <= i < j < r@.len() implies r@[i].code@
            != r@[j].code@ by {
            assert("en"@[0] == 'e' && "en"@[1] == 'n');
            assert("fr"@[0] == 'f' && "fr"@[1] == 'r');
            assert("de"@[0] == 'd' && "de"@[1] == 'e');
            assert("es"@[0] == 'e' && "es"@[1] == 's');
            assert("it"@[0] == 'i' && "it"@[1] == 't');
            assert("fa"@[0] == 'f' && "fa"@[1] == 'a');
            assert("pt"@[0] == 'p' && "pt"@[1] == 't');
            assert("zh-CN"@[0] == 'z' && "zh-CN"@[1] == 'h');
            assert("ar"@[0] == 'a' && "ar"@[1] == 'r');
        }
    }
    r
}

/// Finds the position of a language code in the registry.
pub fn registry_index(registry: &Vec<OfflineDict>, code: &str) -> (r: Option<usize>)
    ensures
        match r {
            Some(i) => i < registry@.len() && registry@[i as int].code@ == code@ && forall|j: int|
                0 <= j < i ==> registry@[j].code@ != code@,
            None => forall|j: int| 0 <= j < registry@.len() ==> registry@[j].code@ != code@,
        },
{
    let n = registry.len();
    let mut i: usize = 0;
    while i < n
        invariant
            i <= n,
            n == registry@.len(),
            forall|j: int| 0 <= j < i ==> registry@[j].code@ != code@,
        decreases n - i,
    {
        if str_eq(registry[i].code.as_str(), code) {
            return Some(i);
        }
        i += 1;
    }
    None
}

} // verus!
