//! The control channel's text: the file name announced at the start of a
//! transfer and the signal that ends it.
use vstd::prelude::*;

verus! {

/// The byte that separates the components of a path (`/`).
pub const PATH_SEPARATOR: u8 = 47;

/// The bytes of the control message that ends a transfer: `stop`.
pub open spec fn stop_signal_bytes() -> Seq<u8> {
    seq![115u8, 116u8, 111u8, 112u8]
}

/// What follows the last separator of a path, or the whole path when it has
/// none (the last item of splitting the path at `/`).
pub open spec fn last_component(path: Seq<u8>) -> Seq<u8>
    decreases path.len(),
{
    if path.len() == 0 {
        path
    } else if path.last() == PATH_SEPARATOR {
        Seq::empty()
    } else {
        last_component(path.drop_last()).push(path.last())
    }
}

/// The file name of a path: its bytes after the last `/`.
pub fn file_name_from_path(path: &[u8]) -> (name: Vec<u8>)
    ensures
        name@ == last_component(path@),
        !name@.contains(PATH_SEPARATOR),
        name@.len() <= path@.len(),
        name@ == path@.skip(path@.len() - name@.len()),
        name@.len() == path@.len() || path@[path@.len() - name@.len() - 1] == PATH_SEPARATOR,
{
    let mut name: Vec<u8> = Vec::new();
    for i in 0..path.len()
        invariant
            name@ == last_component(path@.take(i as int)),
    {
        assert(path@.take(i + 1).drop_last() =~= path@.take(i as int));
        if path[i] == PATH_SEPARATOR {
            name = Vec::new();
        } else {
            name.push(path[i]);
        }
    }
    assert(path@.take(path@.len() as int) =~= path@);
    proof {
        lemma_last_component_shape(path@);
    }
    name
}

/// The bytes of the message that ends a transfer.
pub fn stop_signal() -> (msg: Vec<u8>)
    ensures
        msg@ == stop_signal_bytes(),
{
    let msg: Vec<u8> = vec![115u8, 116u8, 111u8, 112u8];
    assert(msg@ =~= stop_signal_bytes());
    msg
}

/// Whether a control message is the signal that ends a transfer.
pub fn is_stop_signal(msg: &[u8]) -> (b: bool)
    ensures
        b == (msg@ == stop_signal_bytes()),
{
    if msg.len() != 4 {
        return false;
    }
    let b = msg[0] == 115u8 && msg[1] == 116u8 && msg[2] == 111u8 && msg[3] == 112u8;
    if b {
        assert(msg@ =~= stop_signal_bytes());
    }
    b
}

/// The file name of a path is its longest tail without a separator: it holds
/// no separator, is a tail of the path, and is either the whole path or
/// stands right after a separator. In particular it is the whole path when
/// the path holds no separator.
pub proof fn lemma_last_component_shape(path: Seq<u8>)
    ensures
        !last_component(path).contains(PATH_SEPARATOR),
        last_component(path).len() <= path.len(),
        last_component(path) == path.skip(path.len() - last_component(path).len()),
        last_component(path).len() == path.len() || path[path.len() - last_component(path).len()
            - 1] == PATH_SEPARATOR,
        !path.contains(PATH_SEPARATOR) ==> last_component(path) == path,
    decreases path.len(),
{
    if path.len() > 0 {
        let t = path.drop_last();
        lemma_last_component_shape(t);
        let c = last_component(path);
        if path.last() == PATH_SEPARATOR {
            assert(path.skip(path.len() as int) =~= c);
            assert(path.contains(PATH_SEPARATOR)) by {
                assert(path[path.len() - 1] == PATH_SEPARATOR);
            }
        } else {
            let ct = last_component(t);
            assert(c == ct.push(path.last()));
            assert(path.skip(path.len() - c.len()) =~= t.skip(t.len() - ct.len()).push(path.last()));
            assert forall|k: int| 0 <= k < c.len() implies c[k] != PATH_SEPARATOR by {
                if k < ct.len() {
                    assert(ct[k] == c[k]);
                    if c[k] == PATH_SEPARATOR {
                        assert(ct.contains(PATH_SEPARATOR));
                    }
                }
            }
            if !path.contains(PATH_SEPARATOR) {
                assert forall|k: int| 0 <= k < t.len() implies t[k] != PATH_SEPARATOR by {
                    assert(path[k] == t[k]);
                }
                assert(path =~= t.push(path.last()));
            }
            if ct.len() < t.len() {
                assert(path[path.len() - c.len() - 1] == t[t.len() - ct.len() - 1]);
            }
        }
    }
}

/// The separator is the character `/`.
pub proof fn lemma_path_separator_is_slash()
    ensures
        PATH_SEPARATOR == ('/' as u32),
{
}

/// The stop signal is the text `stop`, byte for byte.
pub proof fn lemma_stop_signal_is_stop()
    ensures
        stop_signal_bytes().len() == "stop"@.len(),
        forall|i: int|
            0 <= i < stop_signal_bytes().len() ==> #[trigger] stop_signal_bytes()[i] as u32
                == "stop"@[i] as u32,
{
    reveal_strlit("stop");
}

} // verus!
