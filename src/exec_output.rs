use vstd::prelude::*;

verus! {

/// What a remote command sent back so far: its standard output, its
/// standard error, and its exit status once known.
pub struct ExecOutput {
    stdout: Vec<u8>,
    stderr: Vec<u8>,
    code: Option<u32>,
}

pub struct ExecView {
    pub stdout: Seq<u8>,
    pub stderr: Seq<u8>,
    pub code: Option<u32>,
}

impl View for ExecOutput {
    type V = ExecView;

    closed spec fn view(&self) -> ExecView {
        ExecView { stdout: self.stdout@, stderr: self.stderr@, code: self.code }
    }
}

impl ExecOutput {
    pub fn new() -> (r: Self)
        ensures
            r@ == (ExecView { stdout: Seq::empty(), stderr: Seq::empty(), code: None }),
    {
        ExecOutput { stdout: Vec::new(), stderr: Vec::new(), code: None }
    }

    /// Data on the standard output.
    pub fn on_data(&mut self, data: &[u8])
        ensures
            final(self)@ == (ExecView { stdout: old(self)@.stdout + data@, ..old(self)@ }),
    {
        append_bytes(&mut self.stdout, data);
    }

    /// Extended data: the standard error.
    pub fn on_extended_data(&mut self, data: &[u8])
        ensures
            final(self)@ == (ExecView { stderr: old(self)@.stderr + data@, ..old(self)@ }),
    {
        append_bytes(&mut self.stderr, data);
    }

    /// The exit status; more data may still follow.
    pub fn on_exit_status(&mut self, status: u32)
        ensures
            final(self)@ == (ExecView { code: Some(status), ..old(self)@ }),
    {
        self.code = Some(status);
    }

    /// Once the channel has ended: the standard output if the command
    /// exited with status 0; otherwise the status (if any came) and the
    /// standard error.
    pub fn finish(self) -> (r: Result<Vec<u8>, (Option<u32>, Vec<u8>)>)
        ensures
            self@.code == Some(0u32) ==> (r matches Ok(out) && out@ == self@.stdout),
            self@.code != Some(0u32) ==> (r matches Err((c, err)) && c == self@.code && err@ == self@.stderr),
    {
        match self.code {
            Some(0) => Ok(self.stdout),
            _ => Err((self.code, self.stderr)),
        }
    }
}

fn append_bytes(v: &mut Vec<u8>, data: &[u8])
    ensures
        final(v)@ == old(v)@ + data@,
{
    let mut i: usize = 0;
    while i < data.len()
        invariant
            0 <= i <= data@.len(),
            v@ == old(v)@ + data@.take(i as int),
        decreases data@.len() - i,
    {
        v.push(data[i]);
        proof {
            assert(data@.take(i + 1) =~= data@.take(i as int).push(data@[i as int]));
        }
        i = i + 1;
    }
    proof {
        assert(data@.take(data@.len() as int) =~= data@);
    }
}

} // verus!
