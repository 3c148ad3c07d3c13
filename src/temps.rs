//! Temperature grouping: each raw sensor reading is classified into a group
//! (the `SOC` group for core, package and accelerator sensors, else its sensor
//! type), each group is reduced to its hottest reading rounded to a tenth of a
//! degree, and the groups come out with `SOC` first, then by label.
use crate::model::{TempGroup, TemperatureSensor};
use crate::text::{contains, contains_seq, str_eq};
use vstd::prelude::*;
use vstd::string::{StrSliceExecFns, StringExecFns};

verus! {

/// The lowercase form of a string, as `str::to_lowercase` gives it.
pub uninterp spec fn lower_of(s: Seq<char>) -> Seq<char>;

/// Relies on `str::to_lowercase`: the lowercase form, which depends on the
/// characters alone.
#[verifier::external_body]
pub(crate) fn lowercase(s: &str) -> (r: String)
    ensures
        r@ == lower_of(s@),
{
    s.to_lowercase()
}

pub open spec fn soc_key() -> Seq<char> {
    seq!['S', 'O', 'C']
}

/// A lowercased label names a core, package or accelerator sensor.
pub open spec fn names_soc(lower: Seq<char>) -> bool {
    ||| contains_seq(lower, seq!['n', 'p', 'u'])
    ||| contains_seq(lower, seq!['c', 'o', 'r', 'e'])
    ||| contains_seq(lower, seq!['g', 'p', 'u'])
    ||| contains_seq(lower, seq!['s', 'o', 'c'])
    ||| contains_seq(lower, seq!['c', 'e', 'n', 't', 'e', 'r'])
}

/// The group a reading belongs to.
pub open spec fn group_key(s: TemperatureSensor) -> Seq<char> {
    if names_soc(lower_of(s.label@)) {
        soc_key()
    } else {
        s.sensor_type@
    }
}

/// Lexicographic order by code point, which is the byte order of UTF-8.
pub open spec fn lex_lt(a: Seq<char>, b: Seq<char>) -> bool
    decreases a.len(),
{
    if a.len() == 0 {
        b.len() > 0
    } else if b.len() == 0 {
        false
    } else if a[0] != b[0] {
        (a[0] as int) < (b[0] as int)
    } else {
        lex_lt(a.drop_first(), b.drop_first())
    }
}

/// The output order of group labels: `SOC` first, then lexicographic.
pub open spec fn group_before(a: Seq<char>, b: Seq<char>) -> bool {
    if a == soc_key() {
        b != soc_key()
    } else if b == soc_key() {
        false
    } else {
        lex_lt(a, b)
    }
}

/// `m` is the hottest reading among the first `n` of `s` in group `k`.
pub open spec fn key_max_upto(s: Seq<TemperatureSensor>, n: int, k: Seq<char>, m: int) -> bool {
    &&& exists|i: int| 0 <= i < n && group_key(#[trigger] s[i]) == k && s[i].temperature == m
    &&& forall|i: int| 0 <= i < n && group_key(#[trigger] s[i]) == k ==> s[i].temperature <= m
}

/// `m` is the hottest reading of `s` in group `k`.
pub open spec fn key_max(s: Seq<TemperatureSensor>, k: Seq<char>, m: int) -> bool {
    key_max_upto(s, s.len() as int, k, m)
}

/// Thousandths of a degree to hundredths, rounded to a tenth of a degree,
/// halves away from zero.
pub open spec fn round_tenth(m: int) -> int {
    if m >= 0 {
        (m + 50) / 100 * 10
    } else {
        -((-m + 50) / 100 * 10)
    }
}

/// Some group of `r` has label `k`.
pub open spec fn has_group(r: Seq<TempGroup>, k: Seq<char>) -> bool {
    exists|j: int| 0 <= j < r.len() && (#[trigger] r[j]).label@ == k
}

/// Group `g` holds the rounded hottest reading of `s` in its group.
pub open spec fn group_reads(s: Seq<TemperatureSensor>, g: TempGroup) -> bool {
    exists|m: int| key_max(s, g.label@, m) && g.temperature == round_tenth(m)
}

spec fn in_keys(keys: Seq<String>, k: Seq<char>) -> bool {
    exists|j: int| 0 <= j < keys.len() && (#[trigger] keys[j])@ == k
}

/// `r` is the grouping of the readings `s`: one group per group key of `s`,
/// in output order, each with the rounded hottest reading of its group.
pub open spec fn is_grouping(s: Seq<TemperatureSensor>, r: Seq<TempGroup>) -> bool {
    &&& forall|i: int, j: int|
        0 <= i < j < r.len() ==> group_before(#[trigger] r[i].label@, #[trigger] r[j].label@)
    &&& forall|j: int| 0 <= j < r.len() ==> group_reads(s, #[trigger] r[j])
    &&& forall|i: int| 0 <= i < s.len() ==> has_group(r, group_key(#[trigger] s[i]))
}

proof fn lemma_lex_irreflexive(a: Seq<char>)
    ensures
        !lex_lt(a, a),
    decreases a.len(),
{
    if a.len() > 0 {
        lemma_lex_irreflexive(a.drop_first());
    }
}

proof fn lemma_lex_asymmetric(a: Seq<char>, b: Seq<char>)
    ensures
        !(lex_lt(a, b) && lex_lt(b, a)),
    decreases a.len(),
{
    if a.len() > 0 && b.len() > 0 && a[0] == b[0] {
        lemma_lex_asymmetric(a.drop_first(), b.drop_first());
    }
}

proof fn lemma_lex_transitive(a: Seq<char>, b: Seq<char>, c: Seq<char>)
    requires
        lex_lt(a, b),
        lex_lt(b, c),
    ensures
        lex_lt(a, c),
    decreases a.len(),
{
    if a.len() > 0 && b.len() > 0 && c.len() > 0 && a[0] == b[0] && b[0] == c[0] {
        lemma_lex_transitive(a.drop_first(), b.drop_first(), c.drop_first());
    }
}

proof fn lemma_lex_total(a: Seq<char>, b: Seq<char>)
    requires
        a != b,
    ensures
        lex_lt(a, b) || lex_lt(b, a),
    decreases a.len(),
{
    if a.len() == 0 || b.len() == 0 {
        if a.len() == 0 && b.len() == 0 {
            assert(a =~= b);
        }
    } else if a[0] != b[0] {
        assert((a[0] as int) != (b[0] as int));
    } else {
        if a.drop_first() == b.drop_first() {
            assert(a =~= seq![a[0]] + a.drop_first());
            assert(b =~= seq![b[0]] + b.drop_first());
        }
        lemma_lex_total(a.drop_first(), b.drop_first());
    }
}

/// The output order is a strict total order on labels.
pub proof fn lemma_group_order(a: Seq<char>, b: Seq<char>, c: Seq<char>)
    ensures
        !group_before(a, a),
        !(group_before(a, b) && group_before(b, a)),
        group_before(a, b) && group_before(b, c) ==> group_before(a, c),
        a != b ==> group_before(a, b) || group_before(b, a),
{
    lemma_lex_irreflexive(a);
    lemma_lex_asymmetric(a, b);
    if lex_lt(a, b) && lex_lt(b, c) {
        lemma_lex_transitive(a, b, c);
    }
    if a != b {
        lemma_lex_total(a, b);
    }
}

fn lex_less(a: &str, b: &str) -> (r: bool)
    ensures
        r == lex_lt(a@, b@),
{
    let n = a.unicode_len();
    let m = b.unicode_len();
    let mut i: usize = 0;
    proof {
        assert(a@.subrange(0, n as int) =~= a@);
        assert(b@.subrange(0, m as int) =~= b@);
    }
    while i < n && i < m
        invariant
            n == a@.len(),
            m == b@.len(),
            i <= n,
            i <= m,
            lex_lt(a@, b@) == lex_lt(a@.subrange(i as int, n as int), b@.subrange(i as int, m as int)),
        decreases n - i,
    {
        let ca = a.get_char(i);
        let cb = b.get_char(i);
        let ghost sa = a@.subrange(i as int, n as int);
        let ghost sb = b@.subrange(i as int, m as int);
        if ca != cb {
            proof {
                assert(sa[0] == ca && sb[0] == cb);
            }
            return (ca as u32) < (cb as u32);
        }
        proof {
            assert(sa.drop_first() =~= a@.subrange(i + 1, n as int));
            assert(sb.drop_first() =~= b@.subrange(i + 1, m as int));
        }
        i += 1;
    }
    i == n && i < m
}

/// Whether label `a` comes before label `b` in output order.
fn group_before_exec(a: &str, b: &str) -> (r: bool)
    ensures
        r == group_before(a@, b@),
{
    proof {
        reveal_strlit("SOC");
        assert("SOC"@ =~= soc_key());
    }
    let a_soc = str_eq(a, "SOC");
    let b_soc = str_eq(b, "SOC");
    if a_soc {
        !b_soc
    } else if b_soc {
        false
    } else {
        lex_less(a, b)
    }
}

/// Whether an already lowercased label names a core, package or accelerator
/// sensor.
pub fn names_soc_lower(lower: &str) -> (r: bool)
    ensures
        r == names_soc(lower@),
{
    proof {
        reveal_strlit("npu");
        reveal_strlit("core");
        reveal_strlit("gpu");
        reveal_strlit("soc");
        reveal_strlit("center");
        assert("npu"@ =~= seq!['n', 'p', 'u']);
        assert("core"@ =~= seq!['c', 'o', 'r', 'e']);
        assert("gpu"@ =~= seq!['g', 'p', 'u']);
        assert("soc"@ =~= seq!['s', 'o', 'c']);
        assert("center"@ =~= seq!['c', 'e', 'n', 't', 'e', 'r']);
    }
    contains(lower, "npu") || contains(lower, "core") || contains(lower, "gpu") || contains(
        lower,
        "soc",
    ) || contains(lower, "center")
}

/// Whether a label names a core, package or accelerator sensor, in any case.
pub fn is_soc_label(label: &str) -> (r: bool)
    ensures
        r == names_soc(lower_of(label@)),
{
    let lower = lowercase(label);
    names_soc_lower(lower.as_str())
}

/// The group a reading belongs to.
pub fn group_key_of(sensor: &TemperatureSensor) -> (r: String)
    ensures
        r@ == group_key(*sensor),
{
    proof {
        reveal_strlit("SOC");
        assert("SOC"@ =~= soc_key());
    }
    if is_soc_label(sensor.label.as_str()) {
        String::from_str("SOC")
    } else {
        sensor.sensor_type.clone()
    }
}

/// Rounds thousandths of a degree to a tenth, in hundredths.
pub fn round_tenth_exec(m: i32) -> (r: i32)
    ensures
        r == round_tenth(m as int),
{
    let x = m as i64;
    let r = if x >= 0 {
        (x + 50) / 100 * 10
    } else {
        -((-x + 50) / 100 * 10)
    };
    r as i32
}

fn find_key(keys: &Vec<String>, key: &str) -> (r: Option<usize>)
    ensures
        match r {
            Some(j) => j < keys@.len() && keys@[j as int]@ == key@,
            None => forall|t: int| 0 <= t < keys@.len() ==> (#[trigger] keys@[t])@ != key@,
        },
{
    let mut j: usize = 0;
    while j < keys.len()
        invariant
            j <= keys@.len(),
            forall|t: int| 0 <= t < j ==> (#[trigger] keys@[t])@ != key@,
        decreases keys@.len() - j,
    {
        if str_eq(keys[j].as_str(), key) {
            return Some(j);
        }
        j += 1;
    }
    None
}

proof fn lemma_key_max_other(s: Seq<TemperatureSensor>, i: int, k: Seq<char>, m: int)
    requires
        0 <= i < s.len(),
        key_max_upto(s, i, k, m),
        group_key(s[i]) != k,
    ensures
        key_max_upto(s, i + 1, k, m),
{
}

proof fn lemma_key_max_hit(s: Seq<TemperatureSensor>, i: int, k: Seq<char>, m: int)
    requires
        0 <= i < s.len(),
        key_max_upto(s, i, k, m),
        group_key(s[i]) == k,
    ensures
        key_max_upto(
            s,
            i + 1,
            k,
            if s[i].temperature > m {
                s[i].temperature as int
            } else {
                m
            },
        ),
{
}

proof fn lemma_key_max_new(s: Seq<TemperatureSensor>, i: int, k: Seq<char>)
    requires
        0 <= i < s.len(),
        forall|t: int| 0 <= t < i ==> group_key(#[trigger] s[t]) != k,
        group_key(s[i]) == k,
    ensures
        key_max_upto(s, i + 1, k, s[i].temperature as int),
{
}

/// The distinct group keys of `sensors`, each with its hottest reading.
fn collect_maxima(sensors: &Vec<TemperatureSensor>) -> (r: (Vec<String>, Vec<i32>))
    ensures
        r.0@.len() == r.1@.len(),
        forall|j: int|
            0 <= j < r.0@.len() ==> key_max(sensors@, (#[trigger] r.0@[j])@, r.1@[j] as int),
        forall|a: int, b: int| 0 <= a < b < r.0@.len() ==> r.0@[a]@ != r.0@[b]@,
        forall|t: int| 0 <= t < sensors@.len() ==> in_keys(r.0@, group_key(#[trigger] sensors@[t])),
{
    let ghost s = sensors@;
    let mut keys: Vec<String> = Vec::new();
    let mut maxes: Vec<i32> = Vec::new();
    let mut i: usize = 0;
    while i < sensors.len()
        invariant
            s == sensors@,
            i <= s.len(),
            keys@.len() == maxes@.len(),
            forall|j: int|
                0 <= j < keys@.len() ==> key_max_upto(
                    s,
                    i as int,
                    (#[trigger] keys@[j])@,
                    maxes@[j] as int,
                ),
            forall|a: int, b: int| 0 <= a < b < keys@.len() ==> keys@[a]@ != keys@[b]@,
            forall|t: int| 0 <= t < i ==> in_keys(keys@, group_key(#[trigger] s[t])),
        decreases s.len() - i,
    {
        let key = group_key_of(&sensors[i]);
        let temp = sensors[i].temperature;
        let ghost old_keys = keys@;
        let ghost old_maxes = maxes@;
        match find_key(&keys, key.as_str()) {
            Some(j) => {
                if temp > maxes[j] {
                    maxes[j] = temp;
                }
                proof {
                    assert forall|jj: int| 0 <= jj < keys@.len() implies key_max_upto(
                        s,
                        i + 1,
                        (#[trigger] keys@[jj])@,
                        maxes@[jj] as int,
                    ) by {
                        if jj == j {
                            lemma_key_max_hit(s, i as int, keys@[jj]@, old_maxes[jj] as int);
                        } else {
                            lemma_key_max_other(s, i as int, keys@[jj]@, maxes@[jj] as int);
                        }
                    }
                    assert forall|t: int| 0 <= t < i + 1 implies in_keys(
                        keys@,
                        group_key(#[trigger] s[t]),
                    ) by {
                        if t == i {
                            assert(keys@[j as int]@ == group_key(s[t]));
                        }
                    }
                }
            },
            None => {
                proof {
                    assert forall|t: int| 0 <= t < i implies group_key(#[trigger] s[t]) != key@ by {
                        assert(in_keys(keys@, group_key(s[t])));
                        let jj = choose|jj: int|
                            0 <= jj < keys@.len() && (#[trigger] keys@[jj])@ == group_key(s[t]);
                        assert(keys@[jj]@ != key@);
                    }
                    lemma_key_max_new(s, i as int, key@);
                }
                keys.push(key);
                maxes.push(temp);
                proof {
                    assert forall|jj: int| 0 <= jj < keys@.len() implies key_max_upto(
                        s,
                        i + 1,
                        (#[trigger] keys@[jj])@,
                        maxes@[jj] as int,
                    ) by {
                        if jj < old_keys.len() {
                            assert(keys@[jj] == old_keys[jj]);
                            assert(old_keys[jj]@ != key@);
                            lemma_key_max_other(s, i as int, keys@[jj]@, maxes@[jj] as int);
                        }
                    }
                    assert forall|t: int| 0 <= t < i + 1 implies in_keys(
                        keys@,
                        group_key(#[trigger] s[t]),
                    ) by {
                        if t == i {
                            assert(keys@[old_keys.len() as int]@ == group_key(s[t]));
                        } else {
                            assert(in_keys(old_keys, group_key(s[t])));
                            let jj = choose|jj: int|
                                0 <= jj < old_keys.len() && (#[trigger] old_keys[jj])@
                                    == group_key(s[t]);
                            assert(keys@[jj] == old_keys[jj]);
                        }
                    }
                }
            },
        }
        i += 1;
    }
    (keys, maxes)
}

/// The index of the first label in output order.
fn first_in_order(keys: &Vec<String>) -> (best: usize)
    requires
        keys@.len() > 0,
        forall|a: int, b: int| 0 <= a < b < keys@.len() ==> keys@[a]@ != keys@[b]@,
    ensures
        best < keys@.len(),
        forall|t: int|
            0 <= t < keys@.len() && t != best ==> group_before(
                keys@[best as int]@,
                (#[trigger] keys@[t])@,
            ),
{
    let mut best: usize = 0;
    let mut k: usize = 1;
    while k < keys.len()
        invariant
            0 < keys@.len(),
            best < keys@.len(),
            best < k <= keys@.len(),
            forall|a: int, b: int| 0 <= a < b < keys@.len() ==> keys@[a]@ != keys@[b]@,
            forall|t: int|
                0 <= t < k && t != best ==> group_before(
                    keys@[best as int]@,
                    (#[trigger] keys@[t])@,
                ),
        decreases keys@.len() - k,
    {
        if group_before_exec(keys[k].as_str(), keys[best].as_str()) {
            proof {
                assert forall|t: int| 0 <= t < k + 1 && t != k implies group_before(
                    keys@[k as int]@,
                    (#[trigger] keys@[t])@,
                ) by {
                    lemma_group_order(keys@[k as int]@, keys@[best as int]@, keys@[t]@);
                }
            }
            best = k;
        } else {
            proof {
                assert(keys@[best as int]@ != keys@[k as int]@);
                lemma_group_order(keys@[best as int]@, keys@[k as int]@, keys@[k as int]@);
            }
        }
        k += 1;
    }
    best
}

/// Groups raw readings: `SOC` for labels that name a core, package or
/// accelerator sensor, the sensor type otherwise; the hottest reading of each
/// group, rounded to a tenth of a degree; `SOC` first, then by label.
#[verifier::rlimit(40)]
pub fn group_temperatures(sensors: Vec<TemperatureSensor>) -> (r: Vec<TempGroup>)
    ensures
        is_grouping(sensors@, r@),
{
    let ghost s = sensors@;
    let (mut keys, mut maxes) = collect_maxima(&sensors);
    let mut out: Vec<TempGroup> = Vec::new();
    while keys.len() > 0
        invariant
            keys@.len() == maxes@.len(),
            forall|j: int|
                0 <= j < keys@.len() ==> key_max(s, (#[trigger] keys@[j])@, maxes@[j] as int),
            forall|a: int, b: int| 0 <= a < b < keys@.len() ==> keys@[a]@ != keys@[b]@,
            forall|a: int, b: int|
                0 <= a < b < out@.len() ==> group_before(
                    #[trigger] out@[a].label@,
                    #[trigger] out@[b].label@,
                ),
            forall|a: int, b: int|
                0 <= a < out@.len() && 0 <= b < keys@.len() ==> group_before(
                    #[trigger] out@[a].label@,
                    (#[trigger] keys@[b])@,
                ),
            forall|j: int| 0 <= j < out@.len() ==> group_reads(s, #[trigger] out@[j]),
            forall|t: int|
                0 <= t < s.len() ==> has_group(out@, group_key(#[trigger] s[t])) || in_keys(
                    keys@,
                    group_key(s[t]),
                ),
        decreases keys@.len(),
    {
        let best = first_in_order(&keys);
        let ghost old_keys = keys@;
        let ghost old_out = out@;
        let label = keys.remove(best);
        let m = maxes.remove(best);
        let t = round_tenth_exec(m);
        let ghost lab = label@;
        out.push(TempGroup { label, temperature: t });
        proof {
            lemma_removed_keys(old_keys, keys@, best as int);
            assert(out@.last().label@ == lab);
            assert(lab == old_keys[best as int]@);
            assert(group_reads(s, out@.last()));
            assert forall|a: int, b: int| 0 <= a < b < out@.len() implies group_before(
                #[trigger] out@[a].label@,
                #[trigger] out@[b].label@,
            ) by {
                assert(out@[a] == old_out[a]);
                if b == out@.len() - 1 {
                    assert(group_before(old_out[a].label@, old_keys[best as int]@));
                } else {
                    assert(out@[b] == old_out[b]);
                }
            }
            assert forall|a: int, b: int|
                0 <= a < out@.len() && 0 <= b < keys@.len() implies group_before(
                #[trigger] out@[a].label@,
                (#[trigger] keys@[b])@,
            ) by {
                let ob = if b < best { b } else { b + 1 };
                assert(keys@[b] == old_keys[ob]);
                if a == out@.len() - 1 {
                    assert(group_before(old_keys[best as int]@, old_keys[ob]@));
                } else {
                    assert(out@[a] == old_out[a]);
                }
            }
            assert forall|j: int| 0 <= j < out@.len() implies group_reads(s, #[trigger] out@[j]) by {
                if j < out@.len() - 1 {
                    assert(out@[j] == old_out[j]);
                }
            }
            assert forall|tt: int| 0 <= tt < s.len() implies has_group(
                out@,
                group_key(#[trigger] s[tt]),
            ) || in_keys(keys@, group_key(s[tt])) by {
                let k = group_key(s[tt]);
                if has_group(old_out, k) {
                    let j = choose|j: int| 0 <= j < old_out.len() && (#[trigger] old_out[j]).label@ == k;
                    assert(out@[j] == old_out[j]);
                } else {
                    assert(in_keys(old_keys, k));
                    let j = choose|j: int| 0 <= j < old_keys.len() && (#[trigger] old_keys[j])@ == k;
                    if j == best {
                        assert(out@[out@.len() - 1].label@ == k);
                    } else if j < best {
                        assert(keys@[j] == old_keys[j]);
                    } else {
                        assert(keys@[j - 1] == old_keys[j]);
                    }
                }
            }
        }
    }
    out
}

proof fn lemma_removed_keys(old_keys: Seq<String>, keys: Seq<String>, best: int)
    requires
        0 <= best < old_keys.len(),
        keys == old_keys.remove(best),
        forall|a: int, b: int| 0 <= a < b < old_keys.len() ==> old_keys[a]@ != old_keys[b]@,
    ensures
        forall|a: int, b: int| 0 <= a < b < keys.len() ==> keys[a]@ != keys[b]@,
        forall|b: int|
            0 <= b < keys.len() ==> (#[trigger] keys[b]) == old_keys[if b < best {
                b
            } else {
                b + 1
            }],
{
    assert forall|a: int, b: int| 0 <= a < b < keys.len() implies keys[a]@ != keys[b]@ by {
        let oa = if a < best { a } else { a + 1 };
        let ob = if b < best { b } else { b + 1 };
        assert(keys[a] == old_keys[oa]);
        assert(keys[b] == old_keys[ob]);
    }
}

/// The readings to group: those of the hwmon tree, or the fallback
/// components when the tree gave none.
pub fn choose_sensors(hwmon: Vec<TemperatureSensor>, components: Vec<TemperatureSensor>) -> (r: Vec<
    TemperatureSensor,
>)
    ensures
        r@ == (if hwmon@.len() > 0 {
            hwmon@
        } else {
            components@
        }),
{
    if hwmon.len() > 0 {
        hwmon
    } else {
        components
    }
}

/// The labels of `r`, in order.
pub open spec fn labels(r: Seq<TempGroup>) -> Seq<Seq<char>> {
    r.map_values(|g: TempGroup| g.label@)
}

proof fn lemma_key_max_transfer(s1: Seq<TemperatureSensor>, s2: Seq<TemperatureSensor>, k: Seq<char>, m: int)
    requires
        forall|x: TemperatureSensor| s1.contains(x) <==> s2.contains(x),
        key_max(s1, k, m),
    ensures
        key_max(s2, k, m),
{
    let i = choose|i: int| 0 <= i < s1.len() && group_key(#[trigger] s1[i]) == k && s1[i].temperature == m;
    assert(s1.contains(s1[i]));
    let i2 = choose|i2: int| 0 <= i2 < s2.len() && s2[i2] == s1[i];
    assert(group_key(s2[i2]) == k);
    assert forall|t: int| 0 <= t < s2.len() && group_key(#[trigger] s2[t]) == k implies s2[t].temperature <= m by {
        assert(s2.contains(s2[t]));
        let t1 = choose|t1: int| 0 <= t1 < s1.len() && s1[t1] == s2[t];
        assert(group_key(s1[t1]) == k);
    }
}

proof fn lemma_labels_transfer(
    s1: Seq<TemperatureSensor>,
    s2: Seq<TemperatureSensor>,
    r1: Seq<TempGroup>,
    r2: Seq<TempGroup>,
    x: Seq<char>,
)
    requires
        forall|y: TemperatureSensor| s1.contains(y) <==> s2.contains(y),
        is_grouping(s1, r1),
        is_grouping(s2, r2),
        labels(r1).contains(x),
    ensures
        labels(r2).contains(x),
{
    let j = choose|j: int| 0 <= j < labels(r1).len() && labels(r1)[j] == x;
    assert(group_reads(s1, r1[j]));
    let m = choose|m: int| key_max(s1, r1[j].label@, m) && r1[j].temperature == round_tenth(m);
    let i = choose|i: int| 0 <= i < s1.len() && group_key(#[trigger] s1[i]) == x && s1[i].temperature == m;
    assert(s1.contains(s1[i]));
    let i2 = choose|i2: int| 0 <= i2 < s2.len() && s2[i2] == s1[i];
    assert(has_group(r2, group_key(s2[i2])));
    let j2 = choose|j2: int| 0 <= j2 < r2.len() && (#[trigger] r2[j2]).label@ == x;
    assert(labels(r2)[j2] == x);
}

proof fn lemma_sorted_unique(a: Seq<Seq<char>>, b: Seq<Seq<char>>)
    requires
        forall|i: int, j: int| 0 <= i < j < a.len() ==> group_before(#[trigger] a[i], #[trigger] a[j]),
        forall|i: int, j: int| 0 <= i < j < b.len() ==> group_before(#[trigger] b[i], #[trigger] b[j]),
        forall|x: Seq<char>| a.contains(x) <==> b.contains(x),
    ensures
        a == b,
    decreases a.len(),
{
    if a.len() == 0 {
        if b.len() > 0 {
            assert(b.contains(b[0]));
        }
        assert(a =~= b);
    } else if b.len() == 0 {
        assert(a.contains(a[0]));
    } else {
        assert(a.contains(a[0]));
        let j = choose|j: int| 0 <= j < b.len() && b[j] == a[0];
        assert(b.contains(b[0]));
        let i = choose|i: int| 0 <= i < a.len() && a[i] == b[0];
        if j > 0 {
            assert(group_before(b[0], b[j]));
            lemma_group_order(b[0], a[0], a[0]);
            if i > 0 {
                assert(group_before(a[0], a[i]));
            }
        }
        assert(a[0] == b[0]);
        let a1 = a.drop_first();
        let b1 = b.drop_first();
        assert forall|x: Seq<char>| a1.contains(x) <==> b1.contains(x) by {
            if a1.contains(x) {
                let k = choose|k: int| 0 <= k < a1.len() && a1[k] == x;
                assert(group_before(a[0], a[k + 1]));
                lemma_group_order(x, x, x);
                assert(a.contains(x));
                let kb = choose|kb: int| 0 <= kb < b.len() && b[kb] == x;
                assert(kb != 0);
                assert(b1[kb - 1] == x);
            }
            if b1.contains(x) {
                let k = choose|k: int| 0 <= k < b1.len() && b1[k] == x;
                assert(group_before(b[0], b[k + 1]));
                lemma_group_order(x, x, x);
                assert(b.contains(x));
                let ka = choose|ka: int| 0 <= ka < a.len() && a[ka] == x;
                assert(ka != 0);
                assert(a1[ka - 1] == x);
            }
        }
        assert forall|i: int, j: int| 0 <= i < j < a1.len() implies group_before(
            #[trigger] a1[i],
            #[trigger] a1[j],
        ) by {
            assert(group_before(a[i + 1], a[j + 1]));
        }
        assert forall|i: int, j: int| 0 <= i < j < b1.len() implies group_before(
            #[trigger] b1[i],
            #[trigger] b1[j],
        ) by {
            assert(group_before(b[i + 1], b[j + 1]));
        }
        lemma_sorted_unique(a1, b1);
        assert(a =~= seq![a[0]] + a1);
        assert(b =~= seq![b[0]] + b1);
    }
}

/// Grouping does not depend on the order of the readings: two orderings of
/// the same readings group into the same labels, in the same order, with the
/// same temperatures.
pub proof fn lemma_grouping_order_free(
    s1: Seq<TemperatureSensor>,
    s2: Seq<TemperatureSensor>,
    r1: Seq<TempGroup>,
    r2: Seq<TempGroup>,
)
    requires
        s1.to_multiset() == s2.to_multiset(),
        is_grouping(s1, r1),
        is_grouping(s2, r2),
    ensures
        r1.len() == r2.len(),
        forall|j: int|
            0 <= j < r1.len() ==> (#[trigger] r1[j]).label@ == r2[j].label@ && r1[j].temperature
                == r2[j].temperature,
{
    assert forall|y: TemperatureSensor| s1.contains(y) <==> s2.contains(y) by {
        vstd::seq_lib::to_multiset_contains(s1, y);
        vstd::seq_lib::to_multiset_contains(s2, y);
        assert(s1.to_multiset().count(y) == s2.to_multiset().count(y));
    }
    assert forall|x: Seq<char>| labels(r1).contains(x) <==> labels(r2).contains(x) by {
        if labels(r1).contains(x) {
            lemma_labels_transfer(s1, s2, r1, r2, x);
        }
        if labels(r2).contains(x) {
            lemma_labels_transfer(s2, s1, r2, r1, x);
        }
    }
    let l1 = labels(r1);
    let l2 = labels(r2);
    assert forall|i: int, j: int| 0 <= i < j < l1.len() implies group_before(
        #[trigger] l1[i],
        #[trigger] l1[j],
    ) by {
        assert(group_before(r1[i].label@, r1[j].label@));
    }
    assert forall|i: int, j: int| 0 <= i < j < l2.len() implies group_before(
        #[trigger] l2[i],
        #[trigger] l2[j],
    ) by {
        assert(group_before(r2[i].label@, r2[j].label@));
    }
    lemma_sorted_unique(l1, l2);
    assert forall|j: int| 0 <= j < r1.len() implies (#[trigger] r1[j]).label@ == r2[j].label@
        && r1[j].temperature == r2[j].temperature by {
        assert(l1[j] == l2[j]);
        let k = r1[j].label@;
        assert(group_reads(s1, r1[j]));
        assert(group_reads(s2, r2[j]));
        let m1 = choose|m: int| key_max(s1, k, m) && r1[j].temperature == round_tenth(m);
        let m2 = choose|m: int| key_max(s2, k, m) && r2[j].temperature == round_tenth(m);
        lemma_key_max_transfer(s2, s1, k, m2);
        let w1 = choose|i: int| 0 <= i < s1.len() && group_key(#[trigger] s1[i]) == k && s1[i].temperature == m1;
        let w2 = choose|i: int| 0 <= i < s1.len() && group_key(#[trigger] s1[i]) == k && s1[i].temperature == m2;
        assert(m1 == m2);
    }
}

} // verus!
