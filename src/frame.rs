use vstd::prelude::*;

verus! {

/// A position, in device pixels.
#[derive(Debug, Clone, Copy, PartialEq, Eq, Structural)]
pub struct Point {
    pub x: i32,
    pub y: i32,
}

/// An extent, in device pixels.
#[derive(Debug, Clone, Copy, PartialEq, Eq, Structural)]
pub struct Size {
    pub w: i32,
    pub h: i32,
}

/// A position together with an extent.
#[derive(Debug, Clone, Copy, PartialEq, Eq, Structural)]
pub struct Rect {
    pub x: i32,
    pub y: i32,
    pub w: i32,
    pub h: i32,
}

/// One framebuffer-to-framebuffer copy: the rectangle `(src_x0, src_y0)-(src_x1, src_y1)`
/// of `source` goes to `(dst_x0, dst_y0)-(dst_x1, dst_y1)` of `target` (the screen when
/// `None`).
#[derive(Debug, Clone, Copy, PartialEq, Eq, Structural)]
pub struct Blit {
    pub source: u32,
    pub target: Option<u32>,
    pub src_x0: i32,
    pub src_y0: i32,
    pub src_x1: i32,
    pub src_y1: i32,
    pub dst_x0: i32,
    pub dst_y0: i32,
    pub dst_x1: i64,
    pub dst_y1: i64,
}

/// A rectangular render target with its own framebuffer, its position inside its parent,
/// an optional clip window, and the frames nested in it.
#[derive(Debug)]
pub struct WebGL2Frame {
    pub width: i32,
    pub height: i32,
    pub x: i32,
    pub y: i32,
    pub clip_start: Option<Point>,
    pub clip_end: Option<Point>,
    pub framebuffer: u32,
    pub children: Vec<WebGL2Frame>,
}

/// The copy that composites frame `f` onto `target`: its clip window (the whole frame by
/// default) placed at the frame's position.
pub open spec fn own_blit(f: WebGL2Frame, target: Option<u32>) -> Blit {
    let (cx, cy) = match f.clip_start {
        None => (0i32, 0i32),
        Some(p) => (p.x, p.y),
    };
    let (cw, ch) = match f.clip_end {
        None => (f.width, f.height),
        Some(p) => (p.x, p.y),
    };
    Blit {
        source: f.framebuffer,
        target,
        src_x0: cx,
        src_y0: cy,
        src_x1: cw,
        src_y1: ch,
        dst_x0: f.x,
        dst_y0: f.y,
        dst_x1: (cw - cx) as i64,
        dst_y1: (ch - cy) as i64,
    }
}

/// The copies that draw `f` onto `target`: first every nested frame onto `f`'s own
/// framebuffer, depth first and in creation order, then `f` itself.
pub open spec fn draw_plan(f: WebGL2Frame, target: Option<u32>) -> Seq<Blit>
    decreases f,
{
    children_plan(f.children@, f.framebuffer).push(own_blit(f, target))
}

/// The copies that draw each frame of `cs`, in order, onto the framebuffer `fb`.
pub open spec fn children_plan(cs: Seq<WebGL2Frame>, fb: u32) -> Seq<Blit>
    decreases cs,
{
    if cs.len() == 0 {
        Seq::empty()
    } else {
        children_plan(cs.drop_last(), fb) + draw_plan(cs.last(), Some(fb))
    }
}

impl WebGL2Frame {
    /// A frame of the given extent at the origin, with no clip and nothing nested.
    pub fn root(size: Size, framebuffer: u32) -> (f: WebGL2Frame)
        ensures
            f.width == size.w,
            f.height == size.h,
            f.x == 0,
            f.y == 0,
            f.clip_start is None,
            f.clip_end is None,
            f.framebuffer == framebuffer,
            f.children@.len() == 0,
    {
        WebGL2Frame {
            width: size.w,
            height: size.h,
            x: 0,
            y: 0,
            clip_start: None,
            clip_end: None,
            framebuffer,
            children: Vec::new(),
        }
    }

    /// Gives the frame a new extent; everything else stays.
    pub fn resize(&mut self, size: Size)
        ensures
            final(self).width == size.w,
            final(self).height == size.h,
            final(self).x == old(self).x,
            final(self).y == old(self).y,
            final(self).clip_start == old(self).clip_start,
            final(self).clip_end == old(self).clip_end,
            final(self).framebuffer == old(self).framebuffer,
            final(self).children == old(self).children,
    {
        self.width = size.w;
        self.height = size.h;
    }

    /// Sets the clip window; `None` falls back to the frame's own corner.
    pub fn clip(&mut self, start: Option<Point>, end: Option<Point>)
        ensures
            final(self).clip_start == start,
            final(self).clip_end == end,
            final(self).width == old(self).width,
            final(self).height == old(self).height,
            final(self).x == old(self).x,
            final(self).y == old(self).y,
            final(self).framebuffer == old(self).framebuffer,
            final(self).children == old(self).children,
    {
        self.clip_start = start;
        self.clip_end = end;
    }

    /// Moves the frame inside its parent.
    pub fn position(&mut self, position: Point)
        ensures
            final(self).x == position.x,
            final(self).y == position.y,
            final(self).width == old(self).width,
            final(self).height == old(self).height,
            final(self).clip_start == old(self).clip_start,
            final(self).clip_end == old(self).clip_end,
            final(self).framebuffer == old(self).framebuffer,
            final(self).children == old(self).children,
    {
        self.x = position.x;
        self.y = position.y;
    }

    /// Nests a new frame with the given bounds and framebuffer; returns its index among
    /// the nested frames.
    pub fn new(&mut self, bounds: Rect, framebuffer: u32) -> (i: usize)
        ensures
            i == old(self).children@.len(),
            final(self).children@.len() == old(self).children@.len() + 1,
            final(self).children@.drop_last() == old(self).children@,
            final(self).children@[i as int].width == bounds.w,
            final(self).children@[i as int].height == bounds.h,
            final(self).children@[i as int].x == bounds.x,
            final(self).children@[i as int].y == bounds.y,
            final(self).children@[i as int].clip_start is None,
            final(self).children@[i as int].clip_end is None,
            final(self).children@[i as int].framebuffer == framebuffer,
            final(self).children@[i as int].children@.len() == 0,
            final(self).width == old(self).width,
            final(self).height == old(self).height,
            final(self).x == old(self).x,
            final(self).y == old(self).y,
            final(self).clip_start == old(self).clip_start,
            final(self).clip_end == old(self).clip_end,
            final(self).framebuffer == old(self).framebuffer,
    {
        let child = WebGL2Frame {
            width: bounds.w,
            height: bounds.h,
            x: bounds.x,
            y: bounds.y,
            clip_start: None,
            clip_end: None,
            framebuffer,
            children: Vec::new(),
        };
        let i = self.children.len();
        self.children.push(child);
        assert(self.children@.drop_last() =~= old(self).children@);
        i
    }

    fn composite(&self, target: Option<u32>) -> (b: Blit)
        ensures
            b == own_blit(*self, target),
    {
        let (cx, cy) = match self.clip_start {
            None => (0i32, 0i32),
            Some(p) => (p.x, p.y),
        };
        let (cw, ch) = match self.clip_end {
            None => (self.width, self.height),
            Some(p) => (p.x, p.y),
        };
        Blit {
            source: self.framebuffer,
            target,
            src_x0: cx,
            src_y0: cy,
            src_x1: cw,
            src_y1: ch,
            dst_x0: self.x,
            dst_y0: self.y,
            dst_x1: cw as i64 - cx as i64,
            dst_y1: ch as i64 - cy as i64,
        }
    }

    /// The copies that draw this frame onto `target`, nested frames first.
    pub fn draw(&self, target: Option<u32>) -> (r: Vec<Blit>)
        ensures
            r@ == draw_plan(*self, target),
        decreases self,
    {
        let mut out: Vec<Blit> = Vec::new();
        let mut i: usize = 0;
        while i < self.children.len()
            invariant
                decreases_to!(*self => self.children),
                0 <= i <= self.children@.len(),
                out@ == children_plan(self.children@.take(i as int), self.framebuffer),
            decreases self.children@.len() - i,
        {
            proof {
                vstd::std_specs::vec::axiom_vec_index_decreases(self.children, i as int);
            }
            let mut sub = self.children[i].draw(Some(self.framebuffer));
            out.append(&mut sub);
            proof {
                let cs = self.children@.take(i + 1);
                assert(cs.drop_last() =~= self.children@.take(i as int));
                assert(cs.last() == self.children@[i as int]);
            }
            i = i + 1;
        }
        assert(self.children@.take(i as int) =~= self.children@);
        out.push(self.composite(target));
        out
    }
}

/// The renderer's state between animation frames: the canvas extent last applied, whether
/// the window has been resized since, and the root frame that covers the canvas.
#[derive(Debug)]
pub struct WebGL2 {
    pub width: i32,
    pub height: i32,
    pub resized: bool,
    pub root_frame: WebGL2Frame,
}

impl WebGL2 {
    /// A renderer whose root frame covers a canvas of the given extent.
    pub fn new(size: Size, framebuffer: u32) -> (r: WebGL2)
        ensures
            r.width == size.w,
            r.height == size.h,
            !r.resized,
            r.root_frame.width == size.w,
            r.root_frame.height == size.h,
            r.root_frame.x == 0,
            r.root_frame.y == 0,
            r.root_frame.clip_start is None,
            r.root_frame.clip_end is None,
            r.root_frame.framebuffer == framebuffer,
            r.root_frame.children@.len() == 0,
    {
        WebGL2 {
            width: size.w,
            height: size.h,
            resized: false,
            root_frame: WebGL2Frame::root(size, framebuffer),
        }
    }

    /// Records that the window changed size; the next frame measures the canvas again.
    pub fn mark_resized(&mut self)
        ensures
            final(self).resized,
            final(self).width == old(self).width,
            final(self).height == old(self).height,
            final(self).root_frame == old(self).root_frame,
    {
        self.resized = true;
    }

    /// The root frame.
    pub fn root(&self) -> (f: &WebGL2Frame)
        ensures
            *f == self.root_frame,
    {
        &self.root_frame
    }

    /// One animation frame: after a resize, adopts the canvas extent `measured` for the
    /// renderer and its root frame; then gives the copies that draw the root frame to the
    /// screen.
    pub fn draw(&mut self, measured: Size) -> (r: Vec<Blit>)
        ensures
            !final(self).resized,
            old(self).resized ==> {
                &&& final(self).width == measured.w
                &&& final(self).height == measured.h
                &&& final(self).root_frame.width == measured.w
                &&& final(self).root_frame.height == measured.h
            },
            !old(self).resized ==> {
                &&& final(self).width == old(self).width
                &&& final(self).height == old(self).height
                &&& final(self).root_frame.width == old(self).root_frame.width
                &&& final(self).root_frame.height == old(self).root_frame.height
            },
            final(self).root_frame.x == old(self).root_frame.x,
            final(self).root_frame.y == old(self).root_frame.y,
            final(self).root_frame.clip_start == old(self).root_frame.clip_start,
            final(self).root_frame.clip_end == old(self).root_frame.clip_end,
            final(self).root_frame.framebuffer == old(self).root_frame.framebuffer,
            final(self).root_frame.children == old(self).root_frame.children,
            r@ == draw_plan(final(self).root_frame, None),
    {
        if self.resized {
            self.width = measured.w;
            self.height = measured.h;
            self.root_frame.resize(measured);
            self.resized = false;
        }
        self.root_frame.draw(None)
    }
}

} // verus!
