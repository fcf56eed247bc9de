//! Signed PCR policies: the `systemd-measure sign` invocations that produce them and the
//! merging of several of them into one.
use vstd::prelude::*;

use crate::strmap::{chars_eq, entries_map, entry_keys, lemma_entries_map_at, lemma_sorted_distinct, sorted_keys, StrMap};
use crate::text::{push_str, str_chars, chars_to_string, strings_view};

verus! {

/// One entry of `systemd-measure`'s PCR signature configuration.
pub struct PcrSignatureConfigEntry {
    /// The private key that signs the PCR policies.
    pub private_key: String,
    /// Boot phase paths separated by colons (`enter-initrd`, `enter-initrd:leave-initrd`) to
    /// sign a policy for; empty for the defaults of `systemd-measure`.
    pub phases: Vec<String>,
    /// The PCR banks to sign a policy for; empty for the defaults of `systemd-measure`.
    pub banks: Vec<String>,
}

/// One signed PCR policy.
pub struct PcrPolicySignatureEntry {
    pub pcrs: Vec<u8>,
    pub pkfp: String,
    pub pol: String,
    pub sig: String,
}

/// An entry as plain values.
pub type EntryView = (Seq<u8>, Seq<char>, Seq<char>, Seq<char>);

impl PcrPolicySignatureEntry {
    pub open spec fn view(&self) -> EntryView {
        (self.pcrs@, self.pkfp@, self.pol@, self.sig@)
    }

    /// A copy of the entry.
    pub fn duplicate(&self) -> (r: Self)
        ensures
            r@ == self@,
    {
        let mut pcrs: Vec<u8> = Vec::new();
        let mut i: usize = 0;
        while i < self.pcrs.len()
            invariant
                0 <= i <= self.pcrs@.len(),
                pcrs@ == self.pcrs@.take(i as int),
            decreases self.pcrs@.len() - i,
        {
            pcrs.push(self.pcrs[i]);
            i = i + 1;
            assert(pcrs@ =~= self.pcrs@.take(i as int));
        }
        assert(self.pcrs@.take(i as int) =~= self.pcrs@);
        PcrPolicySignatureEntry {
            pcrs,
            pkfp: self.pkfp.clone(),
            pol: self.pol.clone(),
            sig: self.sig.clone(),
        }
    }

    /// Whether two entries are equal in every field.
    pub fn same(&self, other: &Self) -> (r: bool)
        ensures
            r == (self@ == other@),
    {
        if self.pcrs.len() != other.pcrs.len() {
            return false;
        }
        let mut i: usize = 0;
        while i < self.pcrs.len()
            invariant
                0 <= i <= self.pcrs@.len(),
                self.pcrs@.len() == other.pcrs@.len(),
                forall|j: int| 0 <= j < i ==> self.pcrs@[j] == other.pcrs@[j],
            decreases self.pcrs@.len() - i,
        {
            if self.pcrs[i] != other.pcrs[i] {
                return false;
            }
            i = i + 1;
        }
        assert(self.pcrs@ =~= other.pcrs@);
        chars_eq(&str_chars(self.pkfp.as_str()), &str_chars(other.pkfp.as_str()))
            && chars_eq(&str_chars(self.pol.as_str()), &str_chars(other.pol.as_str()))
            && chars_eq(&str_chars(self.sig.as_str()), &str_chars(other.sig.as_str()))
    }
}

/// The signed policies of each PCR bank, by bank name.
pub type PcrPolicySignature = StrMap<Vec<PcrPolicySignatureEntry>>;

/// The entries of a list as plain values.
pub open spec fn entries_view(v: Seq<PcrPolicySignatureEntry>) -> Seq<EntryView> {
    v.map_values(|e: PcrPolicySignatureEntry| e@)
}

/// A policy signature as plain values.
pub open spec fn signature_view(m: Map<Seq<char>, Vec<PcrPolicySignatureEntry>>) -> Map<Seq<char>, Seq<EntryView>> {
    m.map_values(|v: Vec<PcrPolicySignatureEntry>| entries_view(v@))
}

/// `acc` followed by the entries of `s` that are not in it yet, each at its first occurrence.
pub open spec fn add_new(acc: Seq<EntryView>, s: Seq<EntryView>) -> Seq<EntryView>
    decreases s.len(),
{
    if s.len() == 0 {
        acc
    } else {
        let a = add_new(acc, s.drop_last());
        if a.contains(s.last()) {
            a
        } else {
            a.push(s.last())
        }
    }
}

/// The entries of a bank in a signature, none where the bank is not there.
pub open spec fn bank_entries(sig: Map<Seq<char>, Seq<EntryView>>, bank: Seq<char>) -> Seq<EntryView> {
    if sig.dom().contains(bank) {
        sig[bank]
    } else {
        Seq::empty()
    }
}

/// Some signature has the bank.
pub open spec fn has_bank(sigs: Seq<Map<Seq<char>, Seq<EntryView>>>, bank: Seq<char>) -> bool {
    exists|i: int| 0 <= i < sigs.len() && (#[trigger] sigs[i]).dom().contains(bank)
}

/// The combined entries of a bank: those of every signature in turn, without repetition.
pub open spec fn combined_bank(sigs: Seq<Map<Seq<char>, Seq<EntryView>>>, bank: Seq<char>) -> Seq<EntryView>
    decreases sigs.len(),
{
    if sigs.len() == 0 {
        Seq::empty()
    } else {
        add_new(combined_bank(sigs.drop_last(), bank), bank_entries(sigs.last(), bank))
    }
}

/// The signatures as plain values.
pub open spec fn signatures_view(sigs: Seq<PcrPolicySignature>) -> Seq<Map<Seq<char>, Seq<EntryView>>> {
    sigs.map_values(|s: PcrPolicySignature| signature_view(s@))
}

/// Whether the list holds an entry equal to `e`.
fn holds_entry(list: &Vec<PcrPolicySignatureEntry>, e: &PcrPolicySignatureEntry) -> (r: bool)
    ensures
        r == entries_view(list@).contains(e@),
{
    let mut i: usize = 0;
    while i < list.len()
        invariant
            0 <= i <= list@.len(),
            forall|j: int| 0 <= j < i ==> list@[j]@ != e@,
        decreases list@.len() - i,
    {
        if list[i].same(e) {
            assert(entries_view(list@)[i as int] == e@);
            return true;
        }
        i = i + 1;
    }
    assert forall|j: int| 0 <= j < entries_view(list@).len() implies entries_view(list@)[j] != e@ by {
        assert(list@[j]@ != e@);
    }
    false
}

/// Appends to `acc` the entries of `s` that it does not hold yet.
fn append_new(acc: &mut Vec<PcrPolicySignatureEntry>, s: &Vec<PcrPolicySignatureEntry>)
    ensures
        entries_view(final(acc)@) == add_new(entries_view(old(acc)@), entries_view(s@)),
{
    let ghost a0 = entries_view(acc@);
    let mut i: usize = 0;
    while i < s.len()
        invariant
            0 <= i <= s@.len(),
            entries_view(acc@) == add_new(a0, entries_view(s@).take(i as int)),
        decreases s@.len() - i,
    {
        proof {
            assert(entries_view(s@).take(i + 1).drop_last() =~= entries_view(s@).take(i as int));
        }
        if !holds_entry(acc, &s[i]) {
            acc.push(s[i].duplicate());
            assert(entries_view(acc@) =~= add_new(a0, entries_view(s@).take(i as int)).push(s@[i as int]@));
        }
        i = i + 1;
    }
    assert(entries_view(s@).take(i as int) =~= entries_view(s@));
}

/// A copy of a list of entries.
fn duplicate_entries(v: &Vec<PcrPolicySignatureEntry>) -> (r: Vec<PcrPolicySignatureEntry>)
    ensures
        entries_view(r@) == entries_view(v@),
{
    let mut out: Vec<PcrPolicySignatureEntry> = Vec::new();
    let mut i: usize = 0;
    while i < v.len()
        invariant
            0 <= i <= v@.len(),
            entries_view(out@) == entries_view(v@).take(i as int),
        decreases v@.len() - i,
    {
        let d = v[i].duplicate();
        let ghost before = out@;
        out.push(d);
        assert(entries_view(out@) =~= entries_view(before).push(v@[i as int]@));
        assert(entries_view(v@).take(i + 1) =~= entries_view(v@).take(i as int).push(v@[i as int]@));
        i = i + 1;
    }
    assert(entries_view(v@).take(i as int) =~= entries_view(v@));
    out
}

/// One of the first `j` entries has the key.
pub open spec fn seen_key<V>(e: Seq<(String, V)>, j: int, bank: Seq<char>) -> bool {
    exists|k: int| 0 <= k < j && #[trigger] e[k].0@ == bank
}

proof fn lemma_combined_absent(sigs: Seq<Map<Seq<char>, Seq<EntryView>>>, bank: Seq<char>)
    requires
        !has_bank(sigs, bank),
    ensures
        combined_bank(sigs, bank) == Seq::<EntryView>::empty(),
    decreases sigs.len(),
{
    if sigs.len() > 0 {
        assert(!sigs.last().dom().contains(bank)) by {
            assert(sigs.last() == sigs[sigs.len() - 1]);
        }
        assert forall|i: int| 0 <= i < sigs.drop_last().len() implies !(
        #[trigger] sigs.drop_last()[i]).dom().contains(bank) by {
            assert(sigs.drop_last()[i] == sigs[i]);
        }
        lemma_combined_absent(sigs.drop_last(), bank);
    }
}

/// Combines several PCR policy signatures into one: for each bank, the entries of every
/// signature in turn, each entry once.
pub fn combine_pcr_policy_signatures(policy_signatures: Vec<PcrPolicySignature>) -> (r: PcrPolicySignature)
    requires
        forall|i: int| 0 <= i < policy_signatures@.len() ==> (#[trigger] policy_signatures@[i]).wf(),
    ensures
        r.wf(),
        forall|bank: Seq<char>| #[trigger] r@.dom().contains(bank) <==> has_bank(
            signatures_view(policy_signatures@),
            bank,
        ),
        forall|bank: Seq<char>| #[trigger] r@.dom().contains(bank) ==> entries_view(r@[bank]@)
            == combined_bank(signatures_view(policy_signatures@), bank),
{
    let ghost sv = signatures_view(policy_signatures@);
    let mut result: PcrPolicySignature = StrMap::new();
    let mut i: usize = 0;
    assert(sv.take(0) =~= Seq::<Map<Seq<char>, Seq<EntryView>>>::empty());
    while i < policy_signatures.len()
        invariant
            0 <= i <= policy_signatures@.len(),
            sv == signatures_view(policy_signatures@),
            forall|k: int| 0 <= k < policy_signatures@.len() ==> (#[trigger] policy_signatures@[k]).wf(),
            result.wf(),
            forall|bank: Seq<char>| #[trigger] result@.dom().contains(bank) <==> has_bank(sv.take(i as int), bank),
            forall|bank: Seq<char>| #[trigger] result@.dom().contains(bank) ==> entries_view(result@[bank]@)
                == combined_bank(sv.take(i as int), bank),
        decreases policy_signatures@.len() - i,
    {
        let sig = &policy_signatures[i];
        let ghost es = sig.entries();
        let ghost pre = sv.take(i as int);
        let mut j: usize = 0;
        while j < sig.len()
            invariant
                0 <= j <= es.len(),
                es == sig.entries(),
                sig.wf(),
                result.wf(),
                pre == sv.take(i as int),
                forall|bank: Seq<char>| #[trigger] result@.dom().contains(bank) <==> (has_bank(pre, bank)
                    || seen_key(es, j as int, bank)),
                forall|bank: Seq<char>| #[trigger] result@.dom().contains(bank) ==> entries_view(result@[bank]@)
                    == (if seen_key(es, j as int, bank) {
                        add_new(combined_bank(pre, bank), entries_view(sig@[bank]@))
                    } else {
                        combined_bank(pre, bank)
                    }),
            decreases es.len() - j,
        {
            let (bank, list) = sig.entry(j);
            let ghost b = bank@;
            proof {
                lemma_entries_map_at(es, j as int);
                if seen_key(es, j as int, b) {
                    let k = choose|k: int| 0 <= k < j && #[trigger] es[k].0@ == b;
                    lemma_sorted_distinct(es, k, j as int);
                }
            }
            let mut cur = match result.get(bank.as_str()) {
                Some(v) => duplicate_entries(v),
                None => {
                    proof {
                        lemma_combined_absent(pre, b);
                    }
                    Vec::new()
                },
            };
            assert(entries_view(cur@) == combined_bank(pre, b));
            append_new(&mut cur, list);
            let ghost before = result@;
            result.insert(bank.clone(), cur);
            proof {
                assert forall|bank2: Seq<char>| #[trigger] seen_key(es, j + 1, bank2) <==> (seen_key(es, j as int, bank2)
                    || bank2 == b) by {
                    if seen_key(es, j + 1, bank2) && !seen_key(es, j as int, bank2) {
                        let k = choose|k: int| 0 <= k < j + 1 && #[trigger] es[k].0@ == bank2;
                        assert(k == j);
                    }
                    if bank2 == b {
                        assert(es[j as int].0@ == bank2);
                    }
                    if seen_key(es, j as int, bank2) {
                        let k = choose|k: int| 0 <= k < j && #[trigger] es[k].0@ == bank2;
                        assert(es[k].0@ == bank2);
                    }
                }
            }
            j = j + 1;
        }
        proof {
            let sigv = signature_view(sig@);
            assert(sv[i as int] == sigv);
            assert(sv.take(i + 1).drop_last() =~= pre);
            assert(sv.take(i + 1).last() == sigv);
            assert forall|bank: Seq<char>| seen_key(es, j as int, bank) <==> sig@.dom().contains(bank) by {
                if sig@.dom().contains(bank) {
                    let k = crate::strmap::key_index(es, bank);
                    assert(es[k].0@ == bank);
                }
            }
            assert forall|bank: Seq<char>| has_bank(sv.take(i + 1), bank) <==> (has_bank(pre, bank)
                || sig@.dom().contains(bank)) by {
                if has_bank(sv.take(i + 1), bank) && !sig@.dom().contains(bank) {
                    let k = choose|k: int| 0 <= k < sv.take(i + 1).len() && (#[trigger] sv.take(i + 1)[k]).dom().contains(bank);
                    assert(k != i);
                    assert(pre[k] == sv.take(i + 1)[k]);
                }
                if has_bank(pre, bank) {
                    let k = choose|k: int| 0 <= k < pre.len() && (#[trigger] pre[k]).dom().contains(bank);
                    assert(sv.take(i + 1)[k] == pre[k]);
                }
                if sig@.dom().contains(bank) {
                    assert(sv.take(i + 1)[i as int] == sigv);
                }
            }
        }
        i = i + 1;
    }
    assert(sv.take(i as int) =~= sv);
    result
}

/// No entry occurs twice.
pub open spec fn distinct_entries(s: Seq<EntryView>) -> bool {
    forall|i: int, j: int| 0 <= i < j < s.len() ==> s[i] != s[j]
}

proof fn lemma_add_new(acc: Seq<EntryView>, s: Seq<EntryView>)
    ensures
        distinct_entries(acc) ==> distinct_entries(add_new(acc, s)),
        forall|x: EntryView| #[trigger] add_new(acc, s).contains(x) <==> (acc.contains(x) || s.contains(x)),
        add_new(acc, s).len() >= acc.len(),
        add_new(acc, s).take(acc.len() as int) == acc,
    decreases s.len(),
{
    if s.len() > 0 {
        lemma_add_new(acc, s.drop_last());
        let a = add_new(acc, s.drop_last());
        assert forall|x: EntryView| #[trigger] add_new(acc, s).contains(x) <==> (acc.contains(x) || s.contains(x)) by {
            if s.drop_last().contains(x) {
                let k = choose|k: int| 0 <= k < s.drop_last().len() && s.drop_last()[k] == x;
                assert(s[k] == x);
            }
            if s.contains(x) && !s.drop_last().contains(x) {
                let k = choose|k: int| 0 <= k < s.len() && s[k] == x;
                if k < s.len() - 1 {
                    assert(s.drop_last()[k] == x);
                }
            }
            if !a.contains(s.last()) {
                assert(a.push(s.last())[a.len() as int] == s.last());
                if a.push(s.last()).contains(x) {
                    let k = choose|k: int| 0 <= k < a.push(s.last()).len() && a.push(s.last())[k] == x;
                    if k < a.len() {
                        assert(a[k] == x);
                    }
                }
                if a.contains(x) {
                    let k = choose|k: int| 0 <= k < a.len() && a[k] == x;
                    assert(a.push(s.last())[k] == x);
                }
            }
        }
        if !a.contains(s.last()) {
            assert(a.len() >= acc.len());
            assert(a.push(s.last()).take(acc.len() as int) =~= a.take(acc.len() as int));
        }
    } else {
        assert(acc.take(acc.len() as int) =~= acc);
    }
}

/// The combined entries of a bank repeat no entry.
pub proof fn law_combined_entries_distinct(sigs: Seq<Map<Seq<char>, Seq<EntryView>>>, bank: Seq<char>)
    ensures
        distinct_entries(combined_bank(sigs, bank)),
    decreases sigs.len(),
{
    if sigs.len() > 0 {
        law_combined_entries_distinct(sigs.drop_last(), bank);
        lemma_add_new(combined_bank(sigs.drop_last(), bank), bank_entries(sigs.last(), bank));
    }
}

/// An entry is among the combined entries of a bank exactly where one of the signatures has
/// it for that bank: nothing is lost and nothing is made up.
pub proof fn law_combined_entries_kept(sigs: Seq<Map<Seq<char>, Seq<EntryView>>>, bank: Seq<char>, e: EntryView)
    ensures
        combined_bank(sigs, bank).contains(e) <==> exists|i: int|
            0 <= i < sigs.len() && (#[trigger] sigs[i]).dom().contains(bank) && sigs[i][bank].contains(e),
    decreases sigs.len(),
{
    if sigs.len() > 0 {
        let pre = sigs.drop_last();
        law_combined_entries_kept(pre, bank, e);
        lemma_add_new(combined_bank(pre, bank), bank_entries(sigs.last(), bank));
        if combined_bank(sigs, bank).contains(e) {
            if combined_bank(pre, bank).contains(e) {
                let i = choose|i: int| 0 <= i < pre.len() && (#[trigger] pre[i]).dom().contains(bank) && pre[i][bank].contains(e);
                assert(sigs[i] == pre[i]);
            } else {
                assert(sigs[sigs.len() - 1] == sigs.last());
            }
        }
        if exists|i: int| 0 <= i < sigs.len() && (#[trigger] sigs[i]).dom().contains(bank) && sigs[i][bank].contains(e) {
            let i = choose|i: int| 0 <= i < sigs.len() && (#[trigger] sigs[i]).dom().contains(bank) && sigs[i][bank].contains(e);
            if i < sigs.len() - 1 {
                assert(pre[i] == sigs[i]);
            }
        }
    }
}

/// The entries combined from the first signatures stay first, in their order: combining more
/// signatures only appends.
pub proof fn law_combined_entries_prefix(sigs: Seq<Map<Seq<char>, Seq<EntryView>>>, n: int, bank: Seq<char>)
    requires
        0 <= n <= sigs.len(),
    ensures
        combined_bank(sigs, bank).len() >= combined_bank(sigs.take(n), bank).len(),
        combined_bank(sigs, bank).take(combined_bank(sigs.take(n), bank).len() as int) == combined_bank(
            sigs.take(n),
            bank,
        ),
    decreases sigs.len() - n,
{
    if n == sigs.len() {
        assert(sigs.take(n) =~= sigs);
        assert(combined_bank(sigs, bank).take(combined_bank(sigs, bank).len() as int) =~= combined_bank(sigs, bank));
    } else {
        law_combined_entries_prefix(sigs, n + 1, bank);
        assert(sigs.take(n + 1).drop_last() =~= sigs.take(n));
        let a = combined_bank(sigs.take(n), bank);
        let b = combined_bank(sigs.take(n + 1), bank);
        lemma_add_new(a, bank_entries(sigs.take(n + 1).last(), bank));
        assert(b.take(a.len() as int) == a);
        let c = combined_bank(sigs, bank);
        assert(c.take(b.len() as int) == b);
        assert(a.len() <= b.len());
        assert forall|k: int| 0 <= k < a.len() implies c[k] == a[k] by {
            assert(c.take(b.len() as int)[k] == b[k]);
            assert(b.take(a.len() as int)[k] == a[k]);
        }
        assert(c.take(a.len() as int) =~= a);
    }
}

/// Each value preceded by the flag that introduces it.
pub open spec fn flagged(flag: Seq<char>, values: Seq<Seq<char>>) -> Seq<Seq<char>>
    decreases values.len(),
{
    if values.len() == 0 {
        Seq::empty()
    } else {
        flagged(flag, values.drop_last()) + seq![flag, values.last()]
    }
}

/// Appends each value, preceded by the flag.
fn push_flagged(args: &mut Vec<String>, flag: &str, values: &Vec<String>)
    ensures
        strings_view(final(args)@) == strings_view(old(args)@) + flagged(flag@, strings_view(values@)),
{
    let ghost a0 = strings_view(args@);
    let ghost vs = strings_view(values@);
    let mut i: usize = 0;
    while i < values.len()
        invariant
            0 <= i <= values@.len(),
            vs == strings_view(values@),
            strings_view(args@) == a0 + flagged(flag@, vs.take(i as int)),
        decreases values@.len() - i,
    {
        let ghost before = args@;
        args.push(flag.to_owned());
        args.push(values[i].clone());
        assert(vs.take(i + 1).drop_last() =~= vs.take(i as int));
        assert(vs.take(i + 1).last() == values@[i as int]@);
        assert(strings_view(args@) =~= strings_view(before) + seq![flag@, values@[i as int]@]);
        i = i + 1;
        assert(strings_view(args@) =~= a0 + flagged(flag@, vs.take(i as int)));
    }
    assert(vs.take(i as int) =~= vs);
}

/// The arguments of `systemd-measure` that sign the policy of one configuration entry for the
/// given kernel command line, kernel, initrd and os-release files.
pub open spec fn spec_measure_args(
    entry: PcrSignatureConfigEntry,
    cmdline: Seq<char>,
    kernel: Seq<char>,
    initrd: Seq<char>,
    os_release: Seq<char>,
) -> Seq<Seq<char>> {
    seq![
        "sign"@,
        "--json=short"@,
        "--cmdline"@,
        cmdline,
        "--linux"@,
        kernel,
        "--initrd"@,
        initrd,
        "--osrel"@,
        os_release,
        "--private-key"@,
        entry.private_key@,
    ] + flagged("--phase"@, strings_view(entry.phases@)) + flagged("--bank"@, strings_view(entry.banks@))
}

/// The arguments of `systemd-measure sign` for one configuration entry.
pub fn measure_args(
    entry: &PcrSignatureConfigEntry,
    kernel_cmdline_path: &str,
    kernel_path: &str,
    initrd_path: &str,
    os_release_path: &str,
) -> (r: Vec<String>)
    ensures
        strings_view(r@) == spec_measure_args(*entry, kernel_cmdline_path@, kernel_path@, initrd_path@, os_release_path@),
{
    let mut args: Vec<String> = Vec::new();
    args.push("sign".to_owned());
    args.push("--json=short".to_owned());
    args.push("--cmdline".to_owned());
    args.push(kernel_cmdline_path.to_owned());
    args.push("--linux".to_owned());
    args.push(kernel_path.to_owned());
    args.push("--initrd".to_owned());
    args.push(initrd_path.to_owned());
    args.push("--osrel".to_owned());
    args.push(os_release_path.to_owned());
    args.push("--private-key".to_owned());
    args.push(entry.private_key.clone());
    let ghost head = strings_view(args@);
    assert(head =~= seq![
        "sign"@,
        "--json=short"@,
        "--cmdline"@,
        kernel_cmdline_path@,
        "--linux"@,
        kernel_path@,
        "--initrd"@,
        initrd_path@,
        "--osrel"@,
        os_release_path@,
        "--private-key"@,
        entry.private_key@,
    ]);
    push_flagged(&mut args, "--phase", &entry.phases);
    push_flagged(&mut args, "--bank", &entry.banks);
    args
}

/// The path of `systemd-measure` in a systemd package.
pub fn systemd_measure_path(systemd: &str) -> (r: String)
    ensures
        r@ == systemd@ + "/lib/systemd/systemd-measure"@,
{
    let mut v: Vec<char> = Vec::new();
    push_str(&mut v, systemd);
    push_str(&mut v, "/lib/systemd/systemd-measure");
    chars_to_string(&v)
}

/// The signature that the policies signed for each configuration entry combine to; `None`
/// where there are none.
pub fn combine_signed_policies(policy_signatures: Vec<PcrPolicySignature>) -> (r: Option<PcrPolicySignature>)
    requires
        forall|i: int| 0 <= i < policy_signatures@.len() ==> (#[trigger] policy_signatures@[i]).wf(),
    ensures
        policy_signatures@.len() == 0 <==> r is None,
        r matches Some(c) ==> {
            &&& c.wf()
            &&& forall|bank: Seq<char>| #[trigger] c@.dom().contains(bank) <==> has_bank(
                signatures_view(policy_signatures@),
                bank,
            )
            &&& forall|bank: Seq<char>| #[trigger] c@.dom().contains(bank) ==> entries_view(c@[bank]@)
                == combined_bank(signatures_view(policy_signatures@), bank)
        },
{
    if policy_signatures.len() == 0 {
        None
    } else {
        Some(combine_pcr_policy_signatures(policy_signatures))
    }
}

} // verus!
