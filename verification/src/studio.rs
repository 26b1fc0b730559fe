//! The state and display helpers of the aFix Studio desktop application.

use vstd::prelude::*;

use crate::chunk::ChunkId;
use crate::profile::Profile;
use crate::text::{dec_digits, digit_char, digit_str, push_decimal};

verus! {

#[verifier::external_type_specification]
#[verifier::external_body]
pub struct ExPathBuf(std::path::PathBuf);

// ── Profiles offered in the Convert tab ──────────────────────────────────────

/// The profile choices offered in the Convert tab.
#[derive(Debug, PartialEq, Eq, Clone, Copy, Structural)]
pub enum ProfileChoice {
    WebLossy,
    WebLossless,
    Spatial,
    Trusted,
    Full,
}

impl Default for ProfileChoice {
    /// `WebLossy` is selected at start.
    fn default() -> (c: Self)
        ensures
            c == ProfileChoice::WebLossy,
    {
        ProfileChoice::WebLossy
    }
}

impl ProfileChoice {
    /// The label shown for the choice: the profile's name.
    pub fn label(self) -> (s: &'static str)
        ensures
            s@ == crate::profile::profile_name(choice_profile(self)),
    {
        match self {
            ProfileChoice::WebLossy => "web-lossy",
            ProfileChoice::WebLossless => "web-lossless",
            ProfileChoice::Spatial => "spatial",
            ProfileChoice::Trusted => "trusted",
            ProfileChoice::Full => "full",
        }
    }

    /// The profile that the choice selects.
    pub fn to_profile(self) -> (p: Profile)
        ensures
            p == choice_profile(self),
    {
        match self {
            ProfileChoice::WebLossy => Profile::WebLossy,
            ProfileChoice::WebLossless => Profile::WebLossless,
            ProfileChoice::Spatial => Profile::Spatial,
            ProfileChoice::Trusted => Profile::Trusted,
            ProfileChoice::Full => Profile::Full,
        }
    }
}

/// The profile of the same name as a choice.
pub open spec fn choice_profile(c: ProfileChoice) -> Profile {
    match c {
        ProfileChoice::WebLossy => Profile::WebLossy,
        ProfileChoice::WebLossless => Profile::WebLossless,
        ProfileChoice::Spatial => Profile::Spatial,
        ProfileChoice::Trusted => Profile::Trusted,
        ProfileChoice::Full => Profile::Full,
    }
}

// ── Convert tab state ────────────────────────────────────────────────────────

/// The outcome of converting one source file.
pub struct ConvertResult {
    pub source: std::path::PathBuf,
    pub output: Option<std::path::PathBuf>,
    pub error: Option<String>,
    pub bytes: u64,
}

/// State for the Convert tab.
pub struct ConvertState {
    /// Source files selected by the user.
    pub input_files: Vec<std::path::PathBuf>,
    /// Output directory (defaults to same directory as source if None).
    pub output_dir: Option<std::path::PathBuf>,
    /// Encoding quality.
    pub quality: u8,
    /// Encoding profile.
    pub profile: ProfileChoice,
    /// Whether to leave out the JPEG preview.
    pub no_preview: bool,
    /// Results from the last conversion run.
    pub results: Vec<ConvertResult>,
    /// True while a conversion is in progress.
    pub busy: bool,
}

impl ConvertState {
    /// The state at start: no files, no output directory, quality 85,
    /// `WebLossy`, preview on, no results, idle.
    pub fn new() -> (s: Self)
        ensures
            s.input_files@.len() == 0,
            s.output_dir is None,
            s.quality == 85,
            s.profile == ProfileChoice::WebLossy,
            !s.no_preview,
            s.results@.len() == 0,
            !s.busy,
    {
        ConvertState {
            input_files: Vec::new(),
            output_dir: None,
            quality: 85,
            profile: ProfileChoice::WebLossy,
            no_preview: false,
            results: Vec::new(),
            busy: false,
        }
    }
}

// ── Adding picked files ──────────────────────────────────────────────────────

/// The views of byte-string keys.
pub open spec fn key_views(ks: Seq<Vec<u8>>) -> Seq<Seq<u8>> {
    ks.map_values(|k: Vec<u8>| k@)
}

/// Whether picked file `i`, by its key, is new: no file already listed and
/// no file picked before it has the same key.
pub open spec fn is_new_pick(listed: Seq<Seq<u8>>, picked: Seq<Seq<u8>>, i: int) -> bool {
    !listed.contains(picked[i]) && !picked.take(i).contains(picked[i])
}

/// The first `n` picked items that are new, in order.
pub open spec fn new_picks<T>(items: Seq<T>, listed: Seq<Seq<u8>>, picked: Seq<Seq<u8>>, n: int) -> Seq<T>
    decreases n,
{
    if n <= 0 {
        Seq::empty()
    } else {
        new_picks(items, listed, picked, n - 1) + if is_new_pick(listed, picked, n - 1) {
            seq![items[n - 1]]
        } else {
            Seq::empty()
        }
    }
}

/// The indices of the first `n` picks that `new_picks` keeps: it keeps pick
/// `i` exactly where no listed key equals pick `i`'s key and no pick before it
/// has that key, and it keeps them in increasing order.
pub proof fn lemma_new_pick_indices(listed: Seq<Seq<u8>>, picked: Seq<Seq<u8>>, n: int)
    requires
        0 <= n <= picked.len(),
    ensures
        ({
            let r = new_picks(Seq::new(picked.len(), |i: int| i), listed, picked, n);
            &&& forall|a: int, b: int| 0 <= a < b < r.len() ==> r[a] < r[b]
            &&& forall|k: int| 0 <= k < r.len() ==> 0 <= #[trigger] r[k] < n
            &&& forall|k: int, m: int|
                #![trigger listed[m], r[k]]
                0 <= k < r.len() && 0 <= m < listed.len() ==> listed[m] != picked[r[k]]
            &&& forall|k: int, j: int|
                0 <= k < r.len() && 0 <= j < r[k] ==> #[trigger] picked[j] != picked[#[trigger] r[k]]
            &&& forall|i: int|
                0 <= i < n && (forall|m: int| 0 <= m < listed.len() ==> listed[m] != picked[i]) && (
                forall|j: int| 0 <= j < i ==> picked[j] != picked[i]) ==> r.contains(i)
        }),
    decreases n,
{
    let idx = Seq::new(picked.len(), |i: int| i);
    if n > 0 {
        lemma_new_pick_indices(listed, picked, n - 1);
        let r0 = new_picks(idx, listed, picked, n - 1);
        let r = new_picks(idx, listed, picked, n);
        let i = n - 1;
        if is_new_pick(listed, picked, i) {
            assert(r == r0.push(i));
            assert forall|m: int| 0 <= m < listed.len() implies listed[m] != picked[i] by {
                if listed[m] == picked[i] {
                    assert(listed.contains(picked[i]));
                }
            }
            assert forall|j: int| 0 <= j < i implies picked[j] != picked[i] by {
                if picked[j] == picked[i] {
                    assert(picked.take(i)[j] == picked[i]);
                    assert(picked.take(i).contains(picked[i]));
                }
            }
            assert forall|ii: int|
                0 <= ii < n && (forall|m: int| 0 <= m < listed.len() ==> listed[m] != picked[ii]) && (
                forall|j: int| 0 <= j < ii ==> picked[j] != picked[ii]) implies r.contains(ii) by {
                if ii < n - 1 {
                    assert(r0.contains(ii));
                    let k = choose|k: int| 0 <= k < r0.len() && r0[k] == ii;
                    assert(r[k] == ii);
                } else {
                    assert(r[r.len() - 1] == ii);
                }
            }
        } else {
            assert(r =~= r0);
            assert forall|ii: int|
                0 <= ii < n && (forall|m: int| 0 <= m < listed.len() ==> listed[m] != picked[ii]) && (
                forall|j: int| 0 <= j < ii ==> picked[j] != picked[ii]) implies r.contains(ii) by {
                if ii == n - 1 {
                    if listed.contains(picked[ii]) {
                        let m = choose|m: int| 0 <= m < listed.len() && listed[m] == picked[ii];
                        assert(listed[m] == picked[ii]);
                    } else {
                        assert(picked.take(ii).contains(picked[ii]));
                        let j = choose|j: int| 0 <= j < ii && picked.take(ii)[j] == picked[ii];
                        assert(picked[j] == picked[ii]);
                    }
                }
            }
        }
    }
}

/// What `new_picks` keeps of any items is what it keeps of their indices:
/// the items at the kept indices, in order.
pub proof fn lemma_new_picks_items<T>(items: Seq<T>, listed: Seq<Seq<u8>>, picked: Seq<Seq<u8>>, n: int)
    requires
        0 <= n <= picked.len(),
        n <= items.len(),
    ensures
        new_picks(items, listed, picked, n) == new_picks(
            Seq::new(picked.len(), |i: int| i),
            listed,
            picked,
            n,
        ).map_values(|i: int| items[i]),
    decreases n,
{
    let idx = Seq::new(picked.len(), |i: int| i);
    if n > 0 {
        lemma_new_picks_items(items, listed, picked, n - 1);
        let a = new_picks(items, listed, picked, n);
        let b = new_picks(idx, listed, picked, n).map_values(|i: int| items[i]);
        assert(a =~= b);
    } else {
        assert(new_picks(items, listed, picked, n) =~= new_picks(idx, listed, picked, n).map_values(
            |i: int| items[i],
        ));
    }
}

/// Whether two byte strings are equal.
fn bytes_equal(a: &[u8], b: &[u8]) -> (r: bool)
    ensures
        r == (a@ == b@),
{
    if a.len() != b.len() {
        return false;
    }
    let mut i: usize = 0;
    while i < a.len()
        invariant
            a@.len() == b@.len(),
            i <= a@.len(),
            forall|j: int| 0 <= j < i ==> a@[j] == b@[j],
        decreases a@.len() - i,
    {
        if a[i] != b[i] {
            return false;
        }
        i = i + 1;
    }
    assert(a@ =~= b@);
    true
}

/// Whether `k` is one of the first `upto` keys.
fn key_among(keys: &[Vec<u8>], upto: usize, k: &[u8]) -> (r: bool)
    requires
        upto <= keys@.len(),
    ensures
        r == key_views(keys@).take(upto as int).contains(k@),
{
    let ghost kv = key_views(keys@).take(upto as int);
    let mut i: usize = 0;
    while i < upto
        invariant
            upto <= keys@.len(),
            kv == key_views(keys@).take(upto as int),
            i <= upto,
            forall|j: int| 0 <= j < i ==> kv[j] != k@,
        decreases upto - i,
    {
        if bytes_equal(keys[i].as_slice(), k) {
            assert(kv[i as int] == k@);
            return true;
        }
        i = i + 1;
    }
    false
}

impl ConvertState {
    /// Add the picked files to the list, in order, leaving out each whose key
    /// is the key of a file already listed or of a file picked before it.
    /// `listed_keys` are the keys of the files already listed and
    /// `picked_keys` those of the picked files; two paths name the same file
    /// where their keys are equal.
    pub fn add_files(&mut self, listed_keys: &[Vec<u8>], picked: Vec<std::path::PathBuf>, picked_keys: &[Vec<u8>])
        requires
            picked@.len() == picked_keys@.len(),
        ensures
            final(self).input_files@ == old(self).input_files@ + new_picks(
                picked@,
                key_views(listed_keys@),
                key_views(picked_keys@),
                picked@.len() as int,
            ),
            final(self).output_dir == old(self).output_dir,
            final(self).quality == old(self).quality,
            final(self).profile == old(self).profile,
            final(self).no_preview == old(self).no_preview,
            final(self).results == old(self).results,
            final(self).busy == old(self).busy,
    {
        let ghost listed = key_views(listed_keys@);
        let ghost pk = key_views(picked_keys@);
        let ghost items = picked@;
        let ghost start = self.input_files@;
        let n = picked.len();
        let mut rest = picked;
        let mut j: usize = 0;
        while j < n
            invariant
                n == items.len(),
                n == picked_keys@.len(),
                listed == key_views(listed_keys@),
                pk == key_views(picked_keys@),
                j <= n,
                rest@ == items.subrange(j as int, n as int),
                self.input_files@ == start + new_picks(items, listed, pk, j as int),
                self.output_dir == old(self).output_dir,
                self.quality == old(self).quality,
                self.profile == old(self).profile,
                self.no_preview == old(self).no_preview,
                self.results == old(self).results,
                self.busy == old(self).busy,
            decreases n - j,
        {
            let p = rest.remove(0);
            assert(p == items[j as int]);
            let k = picked_keys[j].as_slice();
            assert(k@ == pk[j as int]);
            let seen = key_among(listed_keys, listed_keys.len(), k) || key_among(picked_keys, j, k);
            proof {
                assert(key_views(listed_keys@).take(listed_keys@.len() as int) =~= listed);
            }
            if !seen {
                self.input_files.push(p);
                assert(self.input_files@ =~= start + new_picks(items, listed, pk, j + 1));
            } else {
                assert(new_picks(items, listed, pk, j + 1) =~= new_picks(items, listed, pk, j as int));
            }
            j = j + 1;
        }
    }
}

// ── Display helpers ──────────────────────────────────────────────────────────

/// The word describing a quality level.
pub open spec fn quality_word(q: u8) -> Seq<char> {
    if q <= 30 {
        "Low"@
    } else if q <= 60 {
        "Medium"@
    } else if q <= 85 {
        "High"@
    } else {
        "Maximum"@
    }
}

/// Return a short description of the quality level.
pub fn quality_label(q: u8) -> (s: &'static str)
    ensures
        s@ == quality_word(q),
{
    if q <= 30 {
        "Low"
    } else if q <= 60 {
        "Medium"
    } else if q <= 85 {
        "High"
    } else {
        "Maximum"
    }
}

/// The badge colour (red, green, blue) of a chunk identifier in the View tab.
pub open spec fn chunk_rgb(id: ChunkId) -> (u8, u8, u8) {
    match id {
        ChunkId::Meta => (200, 180, 100),
        ChunkId::Vec => (100, 200, 140),
        ChunkId::Lat => (100, 160, 255),
        ChunkId::Res => (160, 120, 220),
        ChunkId::Preview => (220, 160, 80),
        ChunkId::ObjManifest => (200, 100, 140),
        _ => (160, 160, 180),
    }
}

/// Return the colour (red, green, blue) of a chunk ID badge in the View tab.
pub fn chunk_id_rgb(id: ChunkId) -> (c: (u8, u8, u8))
    ensures
        c == chunk_rgb(id),
{
    match id {
        ChunkId::Meta => (200, 180, 100),
        ChunkId::Vec => (100, 200, 140),
        ChunkId::Lat => (100, 160, 255),
        ChunkId::Res => (160, 120, 220),
        ChunkId::Preview => (220, 160, 80),
        ChunkId::ObjManifest => (200, 100, 140),
        _ => (160, 160, 180),
    }
}

/// The colour (red, green, blue) of the label of a quality level.
pub open spec fn quality_rgb_of(q: u8) -> (u8, u8, u8) {
    if q <= 30 {
        (220, 100, 80)
    } else if q <= 60 {
        (220, 180, 60)
    } else if q <= 85 {
        (100, 200, 120)
    } else {
        (80, 160, 255)
    }
}

/// Return the colour (red, green, blue) for the quality label.
pub fn quality_rgb(q: u8) -> (c: (u8, u8, u8))
    ensures
        c == quality_rgb_of(q),
{
    if q <= 30 {
        (220, 100, 80)
    } else if q <= 60 {
        (220, 180, 60)
    } else if q <= 85 {
        (100, 200, 120)
    } else {
        (80, 160, 255)
    }
}

/// `a / b` rounded to the nearest integer, ties to the even one.
pub open spec fn round_half_even(a: int, b: int) -> int {
    let q = a / b;
    let r = a % b;
    if 2 * r > b {
        q + 1
    } else if 2 * r < b {
        q
    } else if q % 2 == 0 {
        q
    } else {
        q + 1
    }
}

/// The number of binary digits of `n`.
pub open spec fn bit_len(n: nat) -> nat
    decreases n,
{
    if n == 0 {
        0
    } else {
        1 + bit_len(n / 2)
    }
}

/// Two to the power `e`.
pub open spec fn pow2n(e: nat) -> nat
    decreases e,
{
    if e == 0 {
        1
    } else {
        2 * pow2n((e - 1) as nat)
    }
}

/// The value of the IEEE 754 double nearest to `n` (ties to even): `n`
/// rounded to 53 significant bits.
pub open spec fn nearest_f64(n: nat) -> int {
    if bit_len(n) <= 53 {
        n as int
    } else {
        let d = pow2n((bit_len(n) - 53) as nat) as int;
        round_half_even(n as int, d) * d
    }
}

/// A number of tenths written with one decimal: `12.3` for 123.
pub open spec fn tenths_text(t: nat) -> Seq<char> {
    dec_digits(t / 10) + seq!['.', digit_char((t % 10) as int)]
}

/// A byte count as shown: whole bytes below 1 KiB, else kibibytes below
/// 1 MiB, else mebibytes, each with one decimal rounded to nearest (ties to
/// even) from the count as a double.
pub open spec fn bytes_text(n: u64) -> Seq<char> {
    if n < 1024 {
        dec_digits(n as nat) + " B"@
    } else if n < 1048576 {
        tenths_text(round_half_even(10 * n, 1024) as nat) + " KB"@
    } else {
        tenths_text(round_half_even(10 * nearest_f64(n as nat), 1048576) as nat) + " MB"@
    }
}

fn round_half_even_u128(a: u128, b: u128) -> (r: u128)
    requires
        0 < b,
        a / b < u128::MAX,
    ensures
        r == round_half_even(a as int, b as int),
{
    let q = a / b;
    let r = a % b;
    if r > b - r {
        q + 1
    } else if r < b - r {
        q
    } else if q % 2 == 0 {
        q
    } else {
        q + 1
    }
}

proof fn lemma_bit_len_bound(n: nat)
    ensures
        n < pow2n(bit_len(n)),
        n > 0 ==> pow2n((bit_len(n) - 1) as nat) <= n,
    decreases n,
{
    if n > 0 {
        lemma_bit_len_bound(n / 2);
    }
}

proof fn lemma_pow2n_mono(a: nat, b: nat)
    requires
        a <= b,
    ensures
        pow2n(a) <= pow2n(b),
        pow2n(a) >= 1,
    decreases b,
{
    if b > 0 && a < b {
        lemma_pow2n_mono(a, (b - 1) as nat);
    }
    if a > 0 {
        lemma_pow2n_mono((a - 1) as nat, (a - 1) as nat);
    }
}

proof fn lemma_pow2n_64()
    ensures
        pow2n(64) == 0x1_0000_0000_0000_0000,
{
    reveal_with_fuel(pow2n, 65);
}

/// The value of the double nearest to `n`.
fn nearest_f64_value(n: u64) -> (r: u128)
    ensures
        r == nearest_f64(n as nat),
        r <= n + 2048,
{
    proof {
        lemma_pow2n_64();
    }
    let mut m = n;
    let mut l: u64 = 0;
    while m > 0
        invariant
            bit_len(n as nat) == l + bit_len(m as nat),
            l <= 64,
            m < pow2n((64 - l) as nat),
        decreases m,
    {
        proof {
            assert(pow2n((64 - l) as nat) == 2 * pow2n((64 - l - 1) as nat));
        }
        m = m / 2;
        l = l + 1;
    }
    if l <= 53 {
        return n as u128;
    }
    let s = l - 53;
    let mut d: u64 = 1;
    let mut i: u64 = 0;
    while i < s
        invariant
            i <= s,
            s <= 11,
            d == pow2n(i as nat),
            d <= 2048,
        decreases s - i,
    {
        proof {
            lemma_pow2n_mono(i as nat + 1, 11);
            reveal_with_fuel(pow2n, 12);
            assert(pow2n(11) == 2048);
        }
        d = d * 2;
        i = i + 1;
    }
    proof {
        lemma_pow2n_mono(s as nat, s as nat);
        assert(n as int / d as int <= n as int) by (nonlinear_arith)
            requires
                1 <= d,
        ;
    }
    let q = round_half_even_u128(n as u128, d as u128);
    proof {
        let qq = n as int / d as int;
        assert(q <= qq + 1);
        assert(q * d <= qq * d + d) by (nonlinear_arith)
            requires
                q <= qq + 1,
                1 <= d,
        ;
        assert(qq * d <= n) by (nonlinear_arith)
            requires
                qq == n as int / d as int,
                1 <= d,
        ;
    }
    q * d as u128
}

/// Format a byte count as a human-readable string.
pub fn format_bytes(n: u64) -> (s: String)
    ensures
        s@ == bytes_text(n),
{
    proof {
        reveal_strlit(".");
    }
    let mut s = String::new();
    if n < 1024 {
        push_decimal(&mut s, n);
        s.append(" B");
    } else if n < 1048576 {
        let t = round_half_even_u128(10 * n as u128, 1024) as u64;
        push_decimal(&mut s, t / 10);
        s.append(".");
        s.append(digit_str(t % 10));
        s.append(" KB");
    } else {
        let v = nearest_f64_value(n);
        let t128 = round_half_even_u128(10 * v, 1048576);
        proof {
            assert(t128 <= (10 * v) as int / 1048576 + 1);
        }
        let t = t128 as u64;
        push_decimal(&mut s, t / 10);
        s.append(".");
        s.append(digit_str(t % 10));
        s.append(" MB");
    }
    s
}

} // verus!
