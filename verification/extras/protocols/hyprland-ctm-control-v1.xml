<?xml version="1.0" encoding="UTF-8"?>
<protocol name="hyprland_ctm_control_v1">
  <interface name="hyprland_ctm_control_manager_v1" version="2">
    <description summary="manager to control the color transform matrix of outputs">
      Sets a 3x3 color transform matrix per output; changes take effect on commit.
    </description>

    <request name="set_ctm_for_output">
      <description summary="set the matrix of an output">
        The matrix is given row by row.
      </description>
      <arg name="output" type="object" interface="wl_output"/>
      <arg name="mat0" type="fixed"/>
      <arg name="mat1" type="fixed"/>
      <arg name="mat2" type="fixed"/>
      <arg name="mat3" type="fixed"/>
      <arg name="mat4" type="fixed"/>
      <arg name="mat5" type="fixed"/>
      <arg name="mat6" type="fixed"/>
      <arg name="mat7" type="fixed"/>
      <arg name="mat8" type="fixed"/>
    </request>

    <request name="commit">
      <description summary="apply the pending matrices"/>
    </request>

    <request name="destroy" type="destructor">
      <description summary="destroy the manager"/>
    </request>

    <event name="blocked" since="2">
      <description summary="another client holds the manager"/>
    </event>

    <enum name="error">
      <entry name="invalid_matrix" value="0" summary="a matrix value is out of range"/>
    </enum>
  </interface>
</protocol>
