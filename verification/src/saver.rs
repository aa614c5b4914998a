use vstd::prelude::*;
use crate::fetchers::FoundItem;
use crate::serializer::{SerType, batches_model, payload, serialize_all};

verus! {

/// The sink tree: leaf destinations, and a composite that fans one payload
/// out to every child.
pub enum SaverType {
    Stdout,
    File(String),
    Multiple(Vec<Saver>),
    Telegram,
    Postgres,
}

/// A sink paired with the serializer its pushes use.
pub struct Saver {
    pub stype: SaverType,
    pub sertype: SerType,
}

/// A leaf destination of the sink tree.
#[derive(Debug, Clone, PartialEq, Eq)]
pub enum SinkTarget {
    Stdout,
    File(String),
    Telegram,
    Postgres,
}

/// Model of a leaf destination.
#[verifier::ext_equal]
pub enum SinkModel {
    Stdout,
    File(Seq<char>),
    Telegram,
    Postgres,
}

pub open spec fn sink_model(t: SinkTarget) -> SinkModel {
    match t {
        SinkTarget::Stdout => SinkModel::Stdout,
        SinkTarget::File(p) => SinkModel::File(p@),
        SinkTarget::Telegram => SinkModel::Telegram,
        SinkTarget::Postgres => SinkModel::Postgres,
    }
}

/// The leaves of a sink tree, left to right.
pub open spec fn leaves_of(t: SaverType) -> Seq<SinkModel>
    decreases t, 0int,
{
    match t {
        SaverType::Stdout => seq![SinkModel::Stdout],
        SaverType::File(p) => seq![SinkModel::File(p@)],
        SaverType::Telegram => seq![SinkModel::Telegram],
        SaverType::Postgres => seq![SinkModel::Postgres],
        SaverType::Multiple(children) => child_leaves(children@),
    }
}

pub open spec fn child_leaves(cs: Seq<Saver>) -> Seq<SinkModel>
    decreases cs, 1int,
{
    if cs.len() == 0 {
        Seq::empty()
    } else {
        leaves_of(cs[0].stype) + child_leaves(cs.drop_first())
    }
}

/// One planned delivery: a leaf destination and the exact bytes it is to
/// receive.
pub struct Delivery {
    pub target: SinkTarget,
    pub payload: String,
}

fn push_leaves(out: &mut Vec<Delivery>, t: &SaverType, ser: &String)
    ensures
        final(out)@.len() == old(out)@.len() + leaves_of(*t).len(),
        forall|j: int| 0 <= j < old(out)@.len() ==> final(out)@[j] == old(out)@[j],
        forall|j: int|
            old(out)@.len() <= j < final(out)@.len() ==> sink_model(
                #[trigger] final(out)@[j].target,
            ) == leaves_of(*t)[j - old(out)@.len()] && final(out)@[j].payload@ == ser@,
    decreases *t, 0int,
{
    match t {
        SaverType::Stdout => {
            out.push(Delivery { target: SinkTarget::Stdout, payload: ser.clone() });
            proof {
                assert(leaves_of(*t) =~= seq![SinkModel::Stdout]);
            }
        },
        SaverType::File(p) => {
            out.push(Delivery { target: SinkTarget::File(p.clone()), payload: ser.clone() });
            proof {
                assert(leaves_of(*t) =~= seq![SinkModel::File(p@)]);
            }
        },
        SaverType::Telegram => {
            out.push(Delivery { target: SinkTarget::Telegram, payload: ser.clone() });
            proof {
                assert(leaves_of(*t) =~= seq![SinkModel::Telegram]);
            }
        },
        SaverType::Postgres => {
            out.push(Delivery { target: SinkTarget::Postgres, payload: ser.clone() });
            proof {
                assert(leaves_of(*t) =~= seq![SinkModel::Postgres]);
            }
        },
        SaverType::Multiple(children) => {
            push_child_leaves(out, children, 0, ser);
            proof {
                assert(children@.skip(0) =~= children@);
                assert(leaves_of(*t) == child_leaves(children@));
            }
        },
    }
}

fn push_child_leaves(out: &mut Vec<Delivery>, cs: &Vec<Saver>, i: usize, ser: &String)
    requires
        i <= cs@.len(),
    ensures
        final(out)@.len() == old(out)@.len() + child_leaves(cs@.skip(i as int)).len(),
        forall|j: int| 0 <= j < old(out)@.len() ==> final(out)@[j] == old(out)@[j],
        forall|j: int|
            old(out)@.len() <= j < final(out)@.len() ==> sink_model(
                #[trigger] final(out)@[j].target,
            ) == child_leaves(cs@.skip(i as int))[j - old(out)@.len()]
                && final(out)@[j].payload@ == ser@,
    decreases *cs, 1int, cs@.len() - i,
{
    if i == cs.len() {
        proof {
            assert(cs@.skip(i as int) =~= Seq::<Saver>::empty());
        }
        return ;
    }
    let ghost rest = cs@.skip(i as int);
    proof {
        assert(rest[0] == cs@[i as int]);
        assert(rest.drop_first() =~= cs@.skip(i + 1 as int));
    }
    push_leaves(out, &cs[i].stype, ser);
    push_child_leaves(out, cs, i + 1, ser);
}

impl Saver {
    pub fn new(stype: SaverType, sertype: SerType) -> (r: Self)
        ensures
            r.stype == stype,
            r.sertype == sertype,
    {
        Saver { stype, sertype }
    }

    pub fn new_default() -> (r: Self)
        ensures
            r.stype is Stdout,
            r.sertype == SerType::Json,
    {
        Saver { stype: SaverType::Stdout, sertype: SerType::Json }
    }

    /// Plan one push: serialize the batch collection once with this saver's
    /// serializer, and pair those same bytes with every leaf of the sink
    /// tree — a composite hands one identical payload to every child.
    pub fn deliveries(&self, data: Vec<Vec<FoundItem>>) -> (r: Vec<Delivery>)
        ensures
            r@.len() == leaves_of(self.stype).len(),
            forall|j: int|
                0 <= j < r@.len() ==> sink_model(#[trigger] r@[j].target) == leaves_of(
                    self.stype,
                )[j] && r@[j].payload@ == payload(batches_model(data@), self.sertype),
    {
        let ghost bs = batches_model(data@);
        let ser = serialize_all(data, self.sertype);
        let mut out: Vec<Delivery> = Vec::new();
        push_leaves(&mut out, &self.stype, &ser);
        out
    }
}

}
