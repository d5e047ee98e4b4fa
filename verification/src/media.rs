use vstd::prelude::*;

verus! {

/// A media render: the handle through which the unverified drawing side hands
/// images to the terminal. Fitting an image to the viewport and painting it
/// are the drawing side's work; this crate owns only the naming rule below,
/// used when sweeping up the temporary files the draw backend leaves behind.
pub struct MediaRender;

/// The name prefix of the temporary files the draw backend leaves behind.
pub open spec fn backend_temp_prefix() -> Seq<char> {
    seq!['.', 't', 'm', 'p', '.', 'v', 'i', 'u', 'e', 'r', '.']
}

/// Whether a file name is one of the draw backend's temporary files: it starts
/// with the backend's temp-file prefix.
pub open spec fn is_backend_temp_name(name: Seq<char>) -> bool {
    name.len() >= backend_temp_prefix().len()
        && name.take(backend_temp_prefix().len() as int) == backend_temp_prefix()
}

impl MediaRender {
    /// Decides whether `name` names one of the draw backend's temporary files.
    /// The drawing side walks the temp directory and removes exactly the
    /// entries this accepts.
    pub fn is_backend_temp_file(&self, name: &Vec<char>) -> (r: bool)
        ensures
            r == is_backend_temp_name(name@),
    {
        let mut prefix: Vec<char> = Vec::new();
        prefix.push('.');
        prefix.push('t');
        prefix.push('m');
        prefix.push('p');
        prefix.push('.');
        prefix.push('v');
        prefix.push('i');
        prefix.push('u');
        prefix.push('e');
        prefix.push('r');
        prefix.push('.');
        proof {
            assert(prefix@ =~= backend_temp_prefix());
        }
        if name.len() < prefix.len() {
            return false;
        }
        let mut i: usize = 0;
        while i < prefix.len()
            invariant
                i <= prefix@.len(),
                prefix@ == backend_temp_prefix(),
                name@.len() >= prefix@.len(),
                forall|k: int| 0 <= k < i ==> name@[k] == prefix@[k],
            decreases prefix@.len() - i,
        {
            if name[i] != prefix[i] {
                proof {
                    assert(name@.take(prefix@.len() as int)[i as int] != prefix@[i as int]);
                }
                return false;
            }
            i += 1;
        }
        proof {
            assert(name@.take(prefix@.len() as int) =~= prefix@);
        }
        true
    }
}

} // verus!
