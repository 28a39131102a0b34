//! The table of ports: one entry per device, found by its token or by its label.
//!
//! A token is the position of a port in the table. It is handed out at registration, never
//! changes, and doubles as the identifier under which the readiness poller reports the port.
//! A label is the name that the host chose for a port, or else the name of its device; no two
//! ports of a table carry the same label, so a label leads to one port. The table is laid out
//! once and never grows or shrinks afterwards; the only thing that changes is that a port can
//! be closed, once and for good.

use crate::settings::SerialSetting;
use vstd::prelude::*;
use vstd::seq_lib::seq_to_set_is_finite;
use vstd::string::StringExecFns;
use vstd::utf8::*;

verus! {

/// Why a table could not be laid out or a request could not be served.
#[derive(Debug, PartialEq, Eq)]
pub enum SerialError {
    /// No port was registered under this label.
    UnknownLabel(String),
    /// Two settings ask for this label.
    DuplicateLabel(String),
}

impl SerialError {
    /// What went wrong, in words.
    pub fn message(&self) -> (message: String)
        ensures
            match self {
                SerialError::UnknownLabel(label) => message@ == "Label "@ + label@
                    + " is not exist"@,
                SerialError::DuplicateLabel(label) => message@ == "Label "@ + label@
                    + " is registered twice"@,
            },
    {
        match self {
            SerialError::UnknownLabel(label) => {
                let mut message = "Label ".to_owned();
                message.append(label.as_str());
                message.append(" is not exist");
                message
            },
            SerialError::DuplicateLabel(label) => {
                let mut message = "Label ".to_owned();
                message.append(label.as_str());
                message.append(" is registered twice");
                message
            },
        }
    }
}

/// What a port is, to the contracts of this crate.
pub struct PortView {
    pub token: nat,
    pub label: Seq<char>,
    pub connected: bool,
}

/// One registered device and its liveness.
#[derive(Debug)]
pub struct Port {
    token: usize,
    label: String,
    connected: bool,
}

impl View for Port {
    type V = PortView;

    closed spec fn view(&self) -> PortView {
        PortView { token: self.token as nat, label: self.label@, connected: self.connected }
    }
}

impl Port {
    /// The token assigned at registration.
    pub fn token(&self) -> (token: usize)
        ensures
            token == self@.token,
    {
        self.token
    }

    /// The label under which the port was registered.
    pub fn label(&self) -> (label: &str)
        ensures
            label@ == self@.label,
    {
        self.label.as_str()
    }

    /// Whether the port is still open.
    pub fn is_connected(&self) -> (connected: bool)
        ensures
            connected == self@.connected,
    {
        self.connected
    }
}

/// Every port sits at the position that its token names.
pub open spec fn dense(ports: Seq<PortView>) -> bool {
    forall|i: int| 0 <= i < ports.len() ==> (#[trigger] ports[i]).token == i
}

/// No two ports carry the same label.
pub open spec fn distinct_labels(ports: Seq<PortView>) -> bool {
    forall|i: int, j: int|
        0 <= i < j < ports.len() ==> (#[trigger] ports[i]).label != (#[trigger] ports[j]).label
}

/// What holds of every table: tokens are positions, and labels are unique.
pub open spec fn valid_table(ports: Seq<PortView>) -> bool {
    dense(ports) && distinct_labels(ports)
}

/// Some port carries the label.
pub open spec fn registered(ports: Seq<PortView>, label: Seq<char>) -> bool {
    exists|i: int| 0 <= i < ports.len() && (#[trigger] ports[i]).label == label
}

/// `token` is a port of the table and carries the label.
pub open spec fn leads_to(ports: Seq<PortView>, label: Seq<char>, token: int) -> bool {
    0 <= token < ports.len() && ports[token].label == label
}

/// The mapping from labels to tokens: each registered label leads to the port that carries it.
pub open spec fn by_label(ports: Seq<PortView>) -> Map<Seq<char>, int> {
    Map::new(
        |label: Seq<char>| registered(ports, label),
        |label: Seq<char>| choose|token: int| leads_to(ports, label, token),
    )
}

/// The labels that the settings ask for, in order.
pub open spec fn labels_of(settings: Seq<SerialSetting>) -> Seq<Seq<char>> {
    Seq::new(settings.len(), |i: int| settings[i].spec_label())
}

/// No label occurs twice.
pub open spec fn no_repeat(labels: Seq<Seq<char>>) -> bool {
    forall|i: int, j: int| 0 <= i < j < labels.len() ==> labels[i] != labels[j]
}

/// The label at `j` was asked for before, at some earlier position.
pub open spec fn repeats_at(labels: Seq<Seq<char>>, j: int) -> bool {
    exists|i: int| 0 <= i < j && #[trigger] labels[i] == labels[j]
}

/// `j` is the first position whose label was asked for before.
pub open spec fn first_repeat(labels: Seq<Seq<char>>, j: int) -> bool {
    &&& 0 <= j < labels.len()
    &&& repeats_at(labels, j)
    &&& forall|k: int| 0 <= k < j ==> !repeats_at(labels, k)
}

/// The table that `open` lays out for a list of settings: port `i` carries the label of
/// setting `i` and is open.
pub open spec fn fresh_table(settings: Seq<SerialSetting>) -> Seq<PortView> {
    Seq::new(
        settings.len(),
        |i: int| PortView { token: i as nat, label: settings[i].spec_label(), connected: true },
    )
}

/// `after` is `before` with port `token` closed and nothing else changed.
pub open spec fn closed_at(before: Seq<PortView>, token: int) -> Seq<PortView> {
    before.update(token, PortView { connected: false, ..before[token] })
}

/// Whether two strings hold the same text.
fn same_text(a: &str, b: &str) -> (same: bool)
    ensures
        same == (a@ == b@),
{
    let x = a.as_bytes();
    let y = b.as_bytes();
    if x.len() != y.len() {
        return false;
    }
    let mut i: usize = 0;
    while i < x.len()
        invariant
            x@.len() == y@.len(),
            i <= x@.len(),
            x@ == encode_utf8(a@),
            y@ == encode_utf8(b@),
            forall|j: int| 0 <= j < i ==> x@[j] == y@[j],
        decreases x@.len() - i,
    {
        if x[i] != y[i] {
            return false;
        }
        i += 1;
    }
    proof {
        assert(x@ =~= y@);
        encode_utf8_decode_utf8(a@);
        encode_utf8_decode_utf8(b@);
    }
    true
}

/// The ports of one reactor, in token order.
#[derive(Debug)]
pub struct PortTable {
    ports: Vec<Port>,
}

impl View for PortTable {
    type V = Seq<PortView>;

    closed spec fn view(&self) -> Seq<PortView> {
        Seq::new(self.ports@.len(), |i: int| self.ports@[i]@)
    }
}

impl PortTable {
    #[verifier::type_invariant]
    spec fn tokens_are_positions_and_labels_unique(&self) -> bool {
        &&& forall|i: int| 0 <= i < self.ports@.len() ==> (#[trigger] self.ports@[i]).token == i
        &&& forall|i: int, j: int|
            0 <= i < j < self.ports@.len() ==> (#[trigger] self.ports@[i]).label@
                != (#[trigger] self.ports@[j]).label@
    }

    /// Lays out the table for the given settings: one open port per setting, in order, each
    /// under its effective label and with its position as token. Settings of which two ask
    /// for the same label are refused, and the error names the first label that repeats an
    /// earlier one.
    pub fn open(settings: &Vec<SerialSetting>) -> (opened: Result<PortTable, SerialError>)
        ensures
            opened is Ok <==> no_repeat(labels_of(settings@)),
            match opened {
                Ok(table) => table@ == fresh_table(settings@) && valid_table(table@),
                Err(SerialError::DuplicateLabel(label)) => exists|j: int|
                    #[trigger] first_repeat(labels_of(settings@), j) && label@ == labels_of(
                        settings@,
                    )[j],
                Err(SerialError::UnknownLabel(_)) => false,
            },
    {
        let ghost labels = labels_of(settings@);
        let mut ports: Vec<Port> = Vec::new();
        let mut i: usize = 0;
        while i < settings.len()
            invariant
                labels == labels_of(settings@),
                i <= settings@.len(),
                ports@.len() == i,
                forall|k: int|
                    0 <= k < i ==> (#[trigger] ports@[k])@ == fresh_table(settings@)[k],
                forall|k: int| 0 <= k < i ==> (#[trigger] ports@[k]).token == k,
                forall|a: int, b: int| 0 <= a < b < i ==> labels[a] != labels[b],
                forall|k: int| 0 <= k < i ==> !repeats_at(labels, k),
            decreases settings@.len() - i,
        {
            let label = settings[i].effective_label();
            let mut k: usize = 0;
            while k < i
                invariant
                    labels == labels_of(settings@),
                    k <= i < settings@.len(),
                    ports@.len() == i,
                    label@ == labels[i as int],
                    forall|m: int| 0 <= m < i ==> (#[trigger] ports@[m])@.label == labels[m],
                    forall|m: int| 0 <= m < k ==> labels[m] != labels[i as int],
                    forall|m: int| 0 <= m < i ==> !repeats_at(labels, m),
                decreases i - k,
            {
                if same_text(ports[k].label.as_str(), label.as_str()) {
                    proof {
                        assert(ports@[k as int]@.label == labels[k as int]);
                        assert(labels[k as int] == labels[i as int]);
                        assert(repeats_at(labels, i as int));
                        assert(first_repeat(labels, i as int));
                    }
                    return Err(SerialError::DuplicateLabel(label));
                }
                proof {
                    assert(ports@[k as int]@.label == labels[k as int]);
                }
                k += 1;
            }
            ports.push(Port { token: i, label, connected: true });
            i += 1;
        }
        assert forall|a: int, b: int| 0 <= a < b < ports@.len() implies (#[trigger] ports@[a]).label@
            != (#[trigger] ports@[b]).label@ by {
            assert(ports@[a]@.label == labels[a]);
            assert(ports@[b]@.label == labels[b]);
        }
        let table = PortTable { ports };
        assert(table@ =~= fresh_table(settings@));
        Ok(table)
    }

    /// The number of ports.
    pub fn len(&self) -> (n: usize)
        ensures
            n == self@.len(),
    {
        self.ports.len()
    }

    /// Whether the table holds no port at all.
    pub fn is_empty(&self) -> (empty: bool)
        ensures
            empty == (self@.len() == 0),
    {
        self.ports.len() == 0
    }

    /// The port behind a token.
    pub fn get(&self, token: usize) -> (port: &Port)
        requires
            token < self@.len(),
        ensures
            port@ == self@[token as int],
            port@.token == token,
            valid_table(self@),
    {
        proof {
            use_type_invariant(self);
        }
        &self.ports[token]
    }

    /// The token behind a label: the one port that carries it. A label that no port carries
    /// is refused, and the table is only read.
    pub fn resolve(&self, label: &str) -> (found: Result<usize, SerialError>)
        ensures
            valid_table(self@),
            found is Ok <==> registered(self@, label@),
            match found {
                Ok(token) => leads_to(self@, label@, token as int),
                Err(SerialError::UnknownLabel(unknown)) => {
                    &&& unknown@ == label@
                    &&& !registered(self@, label@)
                },
                Err(SerialError::DuplicateLabel(_)) => false,
            },
    {
        proof {
            use_type_invariant(self);
        }
        let mut i: usize = 0;
        while i < self.ports.len()
            invariant
                valid_table(self@),
                i <= self.ports@.len(),
                self@.len() == self.ports@.len(),
                forall|j: int| 0 <= j < i ==> (#[trigger] self@[j]).label != label@,
            decreases self.ports@.len() - i,
        {
            if same_text(self.ports[i].label.as_str(), label) {
                assert(self@[i as int].label == label@);
                return Ok(i);
            }
            i += 1;
        }
        Err(SerialError::UnknownLabel(label.to_owned()))
    }

    /// Marks a port as closed. A closed port stays closed.
    pub fn close(&mut self, token: usize)
        requires
            token < old(self)@.len(),
        ensures
            final(self)@ == closed_at(old(self)@, token as int),
            valid_table(final(self)@),
    {
        proof {
            use_type_invariant(&*self);
        }
        let mut ports: Vec<Port> = Vec::new();
        core::mem::swap(&mut self.ports, &mut ports);
        ports[token].connected = false;
        self.ports = ports;
        assert(self@ =~= closed_at(old(self)@, token as int));
    }
}

/// Where labels are unique, a label leads to at most one port.
pub proof fn lemma_label_leads_to_one_port(ports: Seq<PortView>, label: Seq<char>, a: int, b: int)
    requires
        distinct_labels(ports),
        leads_to(ports, label, a),
        leads_to(ports, label, b),
    ensures
        a == b,
{
    if a < b {
        assert(ports[a].label != ports[b].label);
    } else if b < a {
        assert(ports[b].label != ports[a].label);
    }
}

/// Every registered label leads to a port of the table, and that port carries the label.
pub proof fn lemma_by_label_is_valid(ports: Seq<PortView>, label: Seq<char>)
    requires
        registered(ports, label),
    ensures
        by_label(ports).contains_key(label),
        leads_to(ports, label, by_label(ports)[label]),
{
    let i = choose|i: int| 0 <= i < ports.len() && (#[trigger] ports[i]).label == label;
    assert(leads_to(ports, label, i));
}

/// Label resolution: in every table the label of a port leads back to that port, the token
/// assigned at registration, and to no other.
pub proof fn lemma_registered_label_resolves(ports: Seq<PortView>, token: int)
    requires
        valid_table(ports),
        0 <= token < ports.len(),
    ensures
        registered(ports, ports[token].label),
        by_label(ports)[ports[token].label] == token,
        ports[by_label(ports)[ports[token].label]].token == token,
        forall|other: int| leads_to(ports, ports[token].label, other) ==> other == token,
{
    let label = ports[token].label;
    assert(leads_to(ports, label, token));
    lemma_by_label_is_valid(ports, label);
    lemma_label_leads_to_one_port(ports, label, token, by_label(ports)[label]);
    assert forall|other: int| leads_to(ports, label, other) implies other == token by {
        lemma_label_leads_to_one_port(ports, label, token, other);
    }
}

/// Label resolution: a label that no port carries leads nowhere.
pub proof fn lemma_unregistered_label_is_unknown(ports: Seq<PortView>, label: Seq<char>)
    requires
        !registered(ports, label),
    ensures
        !by_label(ports).contains_key(label),
        forall|token: int| !leads_to(ports, label, token),
{
}

/// The mapping from labels to tokens has exactly one key for each port.
pub proof fn lemma_one_label_per_port(ports: Seq<PortView>)
    requires
        distinct_labels(ports),
    ensures
        by_label(ports).dom().finite(),
        by_label(ports).dom().len() == ports.len(),
{
    let labels = Seq::new(ports.len(), |i: int| ports[i].label);
    assert forall|i: int, j: int|
        0 <= i < labels.len() && 0 <= j < labels.len() && i != j implies labels[i]
        != labels[j] by {
        if i < j {
            assert(ports[i].label != ports[j].label);
        } else {
            assert(ports[j].label != ports[i].label);
        }
    }
    assert(labels.no_duplicates());
    assert forall|label: Seq<char>| labels.contains(label) == registered(ports, label) by {
        if labels.contains(label) {
            let i = choose|i: int| 0 <= i < labels.len() && labels[i] == label;
            assert(ports[i].label == label);
        }
        if registered(ports, label) {
            let i = choose|i: int| 0 <= i < ports.len() && (#[trigger] ports[i]).label == label;
            assert(labels[i] == label);
        }
    }
    assert(by_label(ports).dom() =~= labels.to_set());
    seq_to_set_is_finite(labels);
    labels.unique_seq_to_set();
}

/// Among settings of which two ask for one label, one position is the first to repeat.
pub proof fn lemma_first_repeat_is_unique(labels: Seq<Seq<char>>, a: int, b: int)
    requires
        first_repeat(labels, a),
        first_repeat(labels, b),
    ensures
        a == b,
{
}

/// Labels repeat exactly when some position repeats an earlier one.
pub proof fn lemma_repeat_has_a_position(labels: Seq<Seq<char>>)
    ensures
        no_repeat(labels) <==> forall|j: int| 0 <= j < labels.len() ==> !repeats_at(labels, j),
{
    if no_repeat(labels) {
        assert forall|j: int| 0 <= j < labels.len() implies !repeats_at(labels, j) by {
            if repeats_at(labels, j) {
                let i = choose|i: int| 0 <= i < j && #[trigger] labels[i] == labels[j];
                assert(labels[i] != labels[j]);
            }
        }
    }
    if forall|j: int| 0 <= j < labels.len() ==> !repeats_at(labels, j) {
        assert forall|i: int, j: int| 0 <= i < j < labels.len() implies labels[i]
            != labels[j] by {
            if labels[i] == labels[j] {
                assert(repeats_at(labels, j));
            }
        }
    }
}

/// Closing a port changes its liveness and nothing else: the table is a table as before,
/// every other port is as it was, no closed port is open again, and every label leads where
/// it led.
pub proof fn lemma_close_touches_one_port(ports: Seq<PortView>, token: int)
    requires
        0 <= token < ports.len(),
    ensures
        closed_at(ports, token).len() == ports.len(),
        !closed_at(ports, token)[token].connected,
        closed_at(ports, token)[token].label == ports[token].label,
        closed_at(ports, token)[token].token == ports[token].token,
        forall|other: int|
            0 <= other < ports.len() && other != token ==> closed_at(ports, token)[other]
                == #[trigger] ports[other],
        forall|any: int|
            0 <= any < ports.len() && !(#[trigger] ports[any]).connected ==> !closed_at(
                ports,
                token,
            )[any].connected,
        dense(ports) ==> dense(closed_at(ports, token)),
        distinct_labels(ports) ==> distinct_labels(closed_at(ports, token)),
        forall|label: Seq<char>, t: int|
            leads_to(closed_at(ports, token), label, t) == leads_to(ports, label, t),
        by_label(closed_at(ports, token)).dom() =~= by_label(ports).dom(),
        distinct_labels(ports) ==> by_label(closed_at(ports, token)) =~= by_label(ports),
{
    let after = closed_at(ports, token);
    assert forall|i: int| 0 <= i < ports.len() implies (#[trigger] after[i]).label
        == ports[i].label && after[i].token == ports[i].token by {}
    if dense(ports) {
        assert forall|i: int| 0 <= i < after.len() implies (#[trigger] after[i]).token == i by {
            assert(ports[i].token == i);
        }
    }
    if distinct_labels(ports) {
        assert forall|i: int, j: int| 0 <= i < j < after.len() implies (#[trigger] after[i]).label
            != (#[trigger] after[j]).label by {
            assert(ports[i].label != ports[j].label);
        }
    }
    assert forall|label: Seq<char>| registered(after, label) == registered(ports, label) by {
        if registered(ports, label) {
            let i = choose|i: int| 0 <= i < ports.len() && (#[trigger] ports[i]).label == label;
            assert(after[i].label == label);
        }
        if registered(after, label) {
            let i = choose|i: int| 0 <= i < after.len() && (#[trigger] after[i]).label == label;
            assert(ports[i].label == label);
        }
    }
    assert(by_label(after).dom() =~= by_label(ports).dom());
    if distinct_labels(ports) {
        assert forall|label: Seq<char>| #[trigger] registered(ports, label) implies by_label(
            after,
        )[label] == by_label(ports)[label] by {
            lemma_by_label_is_valid(ports, label);
            lemma_by_label_is_valid(after, label);
            assert(leads_to(ports, label, by_label(after)[label]));
            lemma_label_leads_to_one_port(
                ports,
                label,
                by_label(after)[label],
                by_label(ports)[label],
            );
        }
    }
}

} // verus!
